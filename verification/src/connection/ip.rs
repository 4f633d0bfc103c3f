//! Recognition of loopback IP addresses in their textual forms.

use vstd::prelude::*;

use crate::chars::{digit_value, numeral, parse_numeral, split_chars, split_on};

verus! {

/// An IPv4 octet: one to three decimal digits, no leading zero, at most 255.
pub open spec fn octet(s: Seq<char>) -> Option<nat> {
    if 1 <= s.len() <= 3 && (s.len() == 1 || s[0] != '0') {
        match numeral(s, 10) {
            Some(n) => if n <= 255 {
                Some(n)
            } else {
                None
            },
            None => None,
        }
    } else {
        None
    }
}

/// An IPv4 address: four octets separated by dots, as one 32-bit number's two
/// 16-bit halves.
pub open spec fn ipv4_halves(s: Seq<char>) -> Option<(nat, nat)> {
    let parts = split_on(s, '.');
    if parts.len() == 4 {
        match (octet(parts[0]), octet(parts[1]), octet(parts[2]), octet(parts[3])) {
            (Some(a), Some(b), Some(c), Some(d)) => Some((a * 256 + b, c * 256 + d)),
            _ => None,
        }
    } else {
        None
    }
}

/// An IPv6 group: one to four hexadecimal digits.
pub open spec fn hex_group(s: Seq<char>) -> Option<nat> {
    if 1 <= s.len() <= 4 {
        numeral(s, 16)
    } else {
        None
    }
}

/// The groups that the first `k` parts spell, each a hexadecimal group.
pub open spec fn hex_groups(parts: Seq<Seq<char>>, k: nat) -> Option<Seq<nat>>
    decreases k,
{
    if k == 0 {
        Some(Seq::empty())
    } else {
        match (hex_groups(parts, (k - 1) as nat), hex_group(parts[k - 1])) {
            (Some(groups), Some(g)) => Some(groups.push(g)),
            _ => None,
        }
    }
}

/// The groups of a run without `::`: hexadecimal groups separated by colons,
/// of which the last may be an IPv4 address that counts for two. Nothing at
/// all is a run of no groups.
pub open spec fn group_run(s: Seq<char>, ipv4_last: bool) -> Option<Seq<nat>> {
    if s.len() == 0 {
        Some(Seq::empty())
    } else {
        let parts = split_on(s, ':');
        let n = parts.len();
        match (hex_groups(parts, (n - 1) as nat), ipv4_halves(parts.last())) {
            (Some(groups), Some((high, low))) => if ipv4_last {
                Some(groups.push(high).push(low))
            } else {
                None
            },
            (Some(groups), None) => match hex_group(parts.last()) {
                Some(g) => Some(groups.push(g)),
                None => None,
            },
            _ => None,
        }
    }
}

/// Where `::` first occurs in `s` at or behind `from`.
pub open spec fn double_colon(s: Seq<char>, from: int) -> Option<int>
    decreases s.len() - from,
{
    if from < 0 || from + 1 >= s.len() {
        None
    } else if s[from] == ':' && s[from + 1] == ':' {
        Some(from)
    } else {
        double_colon(s, from + 1)
    }
}

/// The eight groups of an IPv6 address. A `::` stands for one or more zero
/// groups.
pub open spec fn ipv6_groups(s: Seq<char>) -> Option<Seq<nat>> {
    match double_colon(s, 0) {
        None => match group_run(s, true) {
            Some(groups) => if groups.len() == 8 {
                Some(groups)
            } else {
                None
            },
            None => None,
        },
        Some(i) => match (
            group_run(s.subrange(0, i), false),
            group_run(s.subrange(i + 2, s.len() as int), true),
        ) {
            (Some(head), Some(tail)) => if head.len() + tail.len() <= 7 {
                Some(head + Seq::new((8 - head.len() - tail.len()) as nat, |k: int| 0nat) + tail)
            } else {
                None
            },
            _ => None,
        },
    }
}

/// Whether the groups spell the number one.
pub open spec fn is_one(groups: Seq<nat>) -> bool {
    &&& groups.len() > 0
    &&& groups.last() == 1
    &&& forall|k: int| 0 <= k < groups.len() - 1 ==> groups[k] == 0
}

/// Whether `s` is a loopback IP address: an IPv4 address in `127.0.0.0/8`, or
/// the IPv6 address `::1`.
pub open spec fn is_loopback_ip(s: Seq<char>) -> bool {
    match ipv4_halves(s) {
        Some((high, _)) => high / 256 == 127,
        None => ipv6_groups(s) matches Some(groups) && is_one(groups),
    }
}

proof fn lemma_split_has_parts(s: Seq<char>, x: char)
    ensures
        split_on(s, x).len() >= 1,
    decreases s.len(),
{
    if s.len() > 0 {
        lemma_split_has_parts(s.drop_last(), x);
    }
}

proof fn lemma_double_colon(s: Seq<char>, from: int)
    ensures
        double_colon(s, from) matches Some(i) ==> 0 <= i && i + 1 < s.len() && s[i + 1] == ':',
    decreases s.len() - from,
{
    if 0 <= from && from + 1 < s.len() {
        lemma_double_colon(s, from + 1);
    }
}

proof fn lemma_group_run_has_no_final_dot(s: Seq<char>)
    requires
        s.len() > 0,
        s.last() == '.',
    ensures
        ipv4_halves(s) is None,
        group_run(s, true) is None,
{
    lemma_split_has_parts(s.drop_last(), '.');
    assert(split_on(s, '.').last().len() == 0);
    lemma_split_has_parts(s.drop_last(), ':');
    let last = split_on(s, ':').last();
    assert(last.last() == '.');
    lemma_split_has_parts(last.drop_last(), '.');
    assert(split_on(last, '.').last().len() == 0);
    assert(ipv4_halves(last) is None);
    assert(digit_value('.') is None);
    assert(hex_group(last) is None);
}

/// A loopback address does not end with a dot.
pub proof fn lemma_loopback_ip_has_no_final_dot(s: Seq<char>)
    requires
        is_loopback_ip(s),
    ensures
        s.len() > 0,
        s.last() != '.',
{
    if s.len() == 0 {
        assert(split_on(s, '.').len() == 1);
        assert(ipv6_groups(s) is None);
    } else if s.last() == '.' {
        lemma_group_run_has_no_final_dot(s);
        lemma_double_colon(s, 0);
        if let Some(i) = double_colon(s, 0) {
            let tail = s.subrange(i + 2, s.len() as int);
            assert(i + 2 < s.len());
            assert(tail.last() == '.');
            lemma_group_run_has_no_final_dot(tail);
        }
    }
}

fn parse_octet(v: &Vec<char>) -> (n: Option<u32>)
    ensures
        match (n, octet(v@)) {
            (Some(x), Some(y)) => x == y && x <= 255,
            (None, None) => true,
            _ => false,
        },
{
    assert(v@.subrange(0, v@.len() as int) =~= v@);
    if 1 <= v.len() && v.len() <= 3 && (v.len() == 1 || v[0] != '0') {
        parse_numeral(v, 0, v.len(), 10, 255)
    } else {
        None
    }
}

fn parse_hex_group(v: &Vec<char>) -> (n: Option<u32>)
    ensures
        match (n, hex_group(v@)) {
            (Some(x), Some(y)) => x == y && x <= 0xFFFF,
            (None, None) => true,
            _ => false,
        },
{
    assert(v@.subrange(0, v@.len() as int) =~= v@);
    if 1 <= v.len() && v.len() <= 4 {
        proof {
            lemma_hex_group_bound(v@);
        }
        parse_numeral(v, 0, v.len(), 16, 0xFFFF)
    } else {
        None
    }
}

proof fn lemma_hex_group_bound(s: Seq<char>)
    ensures
        s.len() <= 4 ==> (numeral(s, 16) matches Some(n) ==> n <= 0xFFFF),
        s.len() <= 3 ==> (numeral(s, 16) matches Some(n) ==> n <= 0xFFF),
        s.len() <= 2 ==> (numeral(s, 16) matches Some(n) ==> n <= 0xFF),
        s.len() <= 1 ==> (numeral(s, 16) matches Some(n) ==> n <= 0xF),
    decreases s.len(),
{
    if s.len() > 0 {
        lemma_hex_group_bound(s.drop_last());
    }
}

fn parse_ipv4(v: &Vec<char>, lo: usize, hi: usize) -> (halves: Option<(u32, u32)>)
    requires
        lo <= hi <= v@.len(),
    ensures
        match (halves, ipv4_halves(v@.subrange(lo as int, hi as int))) {
            (Some((a, b)), Some((x, y))) => a == x && b == y && a <= 0xFFFF && b <= 0xFFFF,
            (None, None) => true,
            _ => false,
        },
{
    let parts = split_chars(v, lo, hi, '.');
    let ghost view = parts@.map_values(|p: Vec<char>| p@);
    if parts.len() != 4 {
        return None;
    }
    assert(view[0] == parts@[0]@ && view[1] == parts@[1]@ && view[2] == parts@[2]@ && view[3]
        == parts@[3]@);
    match (
        parse_octet(&parts[0]),
        parse_octet(&parts[1]),
        parse_octet(&parts[2]),
        parse_octet(&parts[3]),
    ) {
        (Some(a), Some(b), Some(c), Some(d)) => Some((a * 256 + b, c * 256 + d)),
        _ => None,
    }
}

/// Group values as natural numbers.
pub open spec fn groups_view(groups: Seq<u32>) -> Seq<nat> {
    groups.map_values(|g: u32| g as nat)
}

fn parse_group_run(v: &Vec<char>, lo: usize, hi: usize, ipv4_last: bool) -> (groups: Option<
    Vec<u32>,
>)
    requires
        lo <= hi <= v@.len(),
    ensures
        match (groups, group_run(v@.subrange(lo as int, hi as int), ipv4_last)) {
            (Some(g), Some(expected)) => groups_view(g@) == expected,
            (None, None) => true,
            _ => false,
        },
{
    let ghost s = v@.subrange(lo as int, hi as int);
    let mut groups: Vec<u32> = Vec::new();
    assert(groups_view(groups@) =~= Seq::empty());
    if lo == hi {
        return Some(groups);
    }
    let parts = split_chars(v, lo, hi, ':');
    let ghost view = split_on(s, ':');
    let n: usize = parts.len();
    let mut i: usize = 0;
    assert forall|k: int| 0 <= k < parts@.len() implies view[k] == (#[trigger] parts@[k])@ by {
        assert(parts@.map_values(|p: Vec<char>| p@)[k] == parts@[k]@);
    }
    while i < n - 1
        invariant
            n == parts@.len() == view.len(),
            view == split_on(s, ':'),
            forall|k: int| 0 <= k < parts@.len() ==> view[k] == (#[trigger] parts@[k])@,
            i <= n - 1,
            s == v@.subrange(lo as int, hi as int),
            s.len() > 0,
            hex_groups(view, i as nat) == Some(groups_view(groups@)),
        decreases n - i,
    {
        let ghost before = groups@;
        match parse_hex_group(&parts[i]) {
            Some(g) => {
                groups.push(g);
                assert(groups_view(groups@) =~= groups_view(before).push(g as nat));
            },
            None => {
                proof {
                    lemma_hex_groups_fail_early(view, (i + 1) as nat, (n - 1) as nat);
                }
                return None;
            },
        }
        i += 1;
    }
    let last = &parts[n - 1];
    let ghost before = groups@;
    assert(last@.subrange(0, last@.len() as int) =~= last@);
    match parse_ipv4(last, 0, last.len()) {
        Some((high, low)) => {
            if !ipv4_last {
                return None;
            }
            groups.push(high);
            groups.push(low);
            assert(groups_view(groups@) =~= groups_view(before).push(high as nat).push(low as nat));
            Some(groups)
        },
        None => match parse_hex_group(last) {
            Some(g) => {
                groups.push(g);
                assert(groups_view(groups@) =~= groups_view(before).push(g as nat));
                Some(groups)
            },
            None => None,
        },
    }
}

proof fn lemma_hex_groups_fail_early(parts: Seq<Seq<char>>, i: nat, n: nat)
    requires
        i <= n,
        hex_groups(parts, i) is None,
    ensures
        hex_groups(parts, n) is None,
    decreases n,
{
    if i < n {
        lemma_hex_groups_fail_early(parts, i, (n - 1) as nat);
    }
}

fn find_double_colon(v: &Vec<char>) -> (index: Option<usize>)
    ensures
        match (index, double_colon(v@, 0)) {
            (Some(i), Some(k)) => i == k && i + 2 <= v@.len(),
            (None, None) => true,
            _ => false,
        },
{
    let mut i: usize = 0;
    while i < v.len() && v.len() - i > 1
        invariant
            i <= v@.len(),
            double_colon(v@, 0) == double_colon(v@, i as int),
        decreases v@.len() - i,
    {
        if v[i] == ':' && v[i + 1] == ':' {
            return Some(i);
        }
        i += 1;
    }
    None
}

fn all_zero(groups: &Vec<u32>, n: usize) -> (yes: bool)
    requires
        n <= groups@.len(),
    ensures
        yes == forall|k: int| 0 <= k < n ==> groups_view(groups@)[k] == 0,
{
    let mut i: usize = 0;
    while i < n
        invariant
            i <= n <= groups@.len(),
            forall|k: int| 0 <= k < i ==> groups_view(groups@)[k] == 0,
        decreases n - i,
    {
        if groups[i] != 0 {
            assert(groups_view(groups@)[i as int] != 0);
            return false;
        }
        i += 1;
    }
    true
}

proof fn lemma_compressed_one(head: Seq<nat>, zeros: nat, tail: Seq<nat>)
    requires
        zeros > 0,
    ensures
        is_one(head + Seq::new(zeros, |k: int| 0nat) + tail) == (is_one(tail) && forall|k: int|
            0 <= k < head.len() ==> head[k] == 0),
{
    let middle = Seq::new(zeros, |k: int| 0nat);
    let all = head + middle + tail;
    if tail.len() == 0 {
        assert(all.last() == middle.last());
    } else {
        assert(all.last() == tail.last());
    }
    if is_one(all) {
        assert forall|k: int| 0 <= k < head.len() implies head[k] == 0 by {
            assert(all[k] == head[k]);
        }
        assert forall|k: int| 0 <= k < tail.len() - 1 implies tail[k] == 0 by {
            assert(all[head.len() + zeros + k] == tail[k]);
        }
    }
}

fn ipv6_loopback(v: &Vec<char>) -> (yes: bool)
    ensures
        yes == (ipv6_groups(v@) matches Some(groups) && is_one(groups)),
{
    let n: usize = v.len();
    assert(v@.subrange(0, n as int) =~= v@);
    match find_double_colon(v) {
        None => match parse_group_run(v, 0, n, true) {
            Some(groups) => groups.len() == 8 && all_zero(&groups, 7) && groups[7] == 1,
            None => false,
        },
        Some(i) => {
            let head = parse_group_run(v, 0, i, false);
            let tail = parse_group_run(v, i + 2, n, true);
            match (head, tail) {
                (Some(head), Some(tail)) => {
                    if head.len() > 7 || tail.len() > 7 - head.len() {
                        return false;
                    }
                    proof {
                        lemma_compressed_one(
                            groups_view(head@),
                            (8 - head@.len() - tail@.len()) as nat,
                            groups_view(tail@),
                        );
                    }
                    tail.len() > 0 && all_zero(&head, head.len()) && all_zero(
                        &tail,
                        tail.len() - 1,
                    ) && tail[tail.len() - 1] == 1
                },
                _ => false,
            }
        },
    }
}

/// Whether the text is a loopback IP address.
pub fn loopback_ip(v: &Vec<char>) -> (yes: bool)
    ensures
        yes == is_loopback_ip(v@),
{
    assert(v@.subrange(0, v@.len() as int) =~= v@);
    match parse_ipv4(v, 0, v.len()) {
        Some((high, _)) => high / 256 == 127,
        None => ipv6_loopback(v),
    }
}

} // verus!
