//! Character sequences: trimming, splitting, searching and numerals.

use vstd::prelude::*;

verus! {

/// Whether `c` has the Unicode property White_Space.
pub open spec fn is_space(c: char) -> bool {
    let u = c as u32;
    ||| 0x09 <= u <= 0x0D
    ||| u == 0x20
    ||| u == 0x85
    ||| u == 0xA0
    ||| u == 0x1680
    ||| 0x2000 <= u <= 0x200A
    ||| u == 0x2028
    ||| u == 0x2029
    ||| u == 0x202F
    ||| u == 0x205F
    ||| u == 0x3000
}

/// Whether `c` is white space.
pub fn space(c: char) -> (yes: bool)
    ensures
        yes == is_space(c),
{
    let u: u32 = c as u32;
    (0x09 <= u && u <= 0x0D) || u == 0x20 || u == 0x85 || u == 0xA0 || u == 0x1680 || (0x2000 <= u
        && u <= 0x200A) || u == 0x2028 || u == 0x2029 || u == 0x202F || u == 0x205F || u == 0x3000
}

/// `s` without the leading characters that satisfy `p`.
pub open spec fn strip_start(s: Seq<char>, p: spec_fn(char) -> bool) -> Seq<char>
    decreases s.len(),
{
    if s.len() > 0 && p(s[0]) {
        strip_start(s.drop_first(), p)
    } else {
        s
    }
}

/// `s` without the trailing characters that satisfy `p`.
pub open spec fn strip_end(s: Seq<char>, p: spec_fn(char) -> bool) -> Seq<char>
    decreases s.len(),
{
    if s.len() > 0 && p(s.last()) {
        strip_end(s.drop_last(), p)
    } else {
        s
    }
}

/// `s` without surrounding white space.
pub open spec fn trimmed(s: Seq<char>) -> Seq<char> {
    strip_end(strip_start(s, |c: char| is_space(c)), |c: char| is_space(c))
}

/// Being the character `x`.
pub open spec fn is_char(x: char) -> spec_fn(char) -> bool {
    |c: char| c == x
}

/// `s` without leading `x`s.
pub open spec fn without_leading(s: Seq<char>, x: char) -> Seq<char> {
    strip_start(s, is_char(x))
}

/// `s` without trailing `x`s.
pub open spec fn without_trailing(s: Seq<char>, x: char) -> Seq<char> {
    strip_end(s, is_char(x))
}

/// Where `x` last occurs in `s`.
pub open spec fn last_index_of(s: Seq<char>, x: char) -> Option<int>
    decreases s.len(),
{
    if s.len() == 0 {
        None
    } else if s.last() == x {
        Some(s.len() - 1)
    } else {
        last_index_of(s.drop_last(), x)
    }
}

/// The parts of `s` between the occurrences of `x`; at least one.
pub open spec fn split_on(s: Seq<char>, x: char) -> Seq<Seq<char>>
    decreases s.len(),
{
    if s.len() == 0 {
        seq![Seq::empty()]
    } else {
        let parts = split_on(s.drop_last(), x);
        if s.last() == x {
            parts.push(Seq::empty())
        } else {
            parts.update(parts.len() - 1, parts.last().push(s.last()))
        }
    }
}

/// The value of a hexadecimal digit.
pub open spec fn digit_value(c: char) -> Option<nat> {
    let u = c as u32;
    if 48 <= u <= 57 {
        Some((u - 48) as nat)
    } else if 65 <= u <= 70 {
        Some((u - 55) as nat)
    } else if 97 <= u <= 102 {
        Some((u - 87) as nat)
    } else {
        None
    }
}

/// The number that the digits spell in the given base (at most sixteen);
/// `None` where a character is no digit of that base.
pub open spec fn numeral(s: Seq<char>, base: nat) -> Option<nat>
    decreases s.len(),
{
    if s.len() == 0 {
        Some(0)
    } else {
        match (numeral(s.drop_last(), base), digit_value(s.last())) {
            (Some(n), Some(d)) => if d < base {
                Some(n * base + d)
            } else {
                None
            },
            _ => None,
        }
    }
}

/// An ASCII letter in lower case; other characters stay.
pub open spec fn lower(c: char) -> char {
    let u = c as u32;
    if 65 <= u <= 90 {
        (u + 32) as char
    } else {
        c
    }
}

/// `s` with its ASCII letters in lower case.
pub open spec fn lower_case(s: Seq<char>) -> Seq<char> {
    s.map_values(|c: char| lower(c))
}

/// Where the part of `v` between `lo` and `hi` begins, leading white space
/// aside.
pub fn skip_spaces(v: &Vec<char>, lo: usize, hi: usize) -> (start: usize)
    requires
        lo <= hi <= v@.len(),
    ensures
        lo <= start <= hi,
        v@.subrange(start as int, hi as int) == strip_start(
            v@.subrange(lo as int, hi as int),
            |c: char| is_space(c),
        ),
{
    let ghost p = |c: char| is_space(c);
    let mut start: usize = lo;
    while start < hi && space(v[start])
        invariant
            lo <= start <= hi <= v@.len(),
            p == (|c: char| is_space(c)),
            strip_start(v@.subrange(lo as int, hi as int), p) == strip_start(
                v@.subrange(start as int, hi as int),
                p,
            ),
        decreases hi - start,
    {
        assert(v@.subrange(start as int, hi as int).drop_first() =~= v@.subrange(
            start + 1,
            hi as int,
        ));
        start += 1;
    }
    start
}

/// Where the part of `v` between `lo` and `hi` ends, trailing white space
/// aside.
pub fn skip_spaces_back(v: &Vec<char>, lo: usize, hi: usize) -> (end: usize)
    requires
        lo <= hi <= v@.len(),
    ensures
        lo <= end <= hi,
        v@.subrange(lo as int, end as int) == strip_end(
            v@.subrange(lo as int, hi as int),
            |c: char| is_space(c),
        ),
{
    let ghost p = |c: char| is_space(c);
    let mut end: usize = hi;
    while end > lo && space(v[end - 1])
        invariant
            lo <= end <= hi <= v@.len(),
            p == (|c: char| is_space(c)),
            strip_end(v@.subrange(lo as int, hi as int), p) == strip_end(
                v@.subrange(lo as int, end as int),
                p,
            ),
        decreases end - lo,
    {
        assert(v@.subrange(lo as int, end as int).drop_last() =~= v@.subrange(
            lo as int,
            end - 1,
        ));
        end -= 1;
    }
    end
}

/// Where the part of `v` between `lo` and `hi` begins, leading `x`s aside.
pub fn skip_char(v: &Vec<char>, lo: usize, hi: usize, x: char) -> (start: usize)
    requires
        lo <= hi <= v@.len(),
    ensures
        lo <= start <= hi,
        v@.subrange(start as int, hi as int) == without_leading(
            v@.subrange(lo as int, hi as int),
            x,
        ),
{
    let ghost p = is_char(x);
    let mut start: usize = lo;
    while start < hi && v[start] == x
        invariant
            lo <= start <= hi <= v@.len(),
            p == is_char(x),
            strip_start(v@.subrange(lo as int, hi as int), p) == strip_start(
                v@.subrange(start as int, hi as int),
                p,
            ),
        decreases hi - start,
    {
        assert(v@.subrange(start as int, hi as int).drop_first() =~= v@.subrange(
            start + 1,
            hi as int,
        ));
        start += 1;
    }
    start
}

/// Where the part of `v` between `lo` and `hi` ends, trailing `x`s aside.
pub fn skip_char_back(v: &Vec<char>, lo: usize, hi: usize, x: char) -> (end: usize)
    requires
        lo <= hi <= v@.len(),
    ensures
        lo <= end <= hi,
        v@.subrange(lo as int, end as int) == without_trailing(
            v@.subrange(lo as int, hi as int),
            x,
        ),
{
    let ghost p = is_char(x);
    let mut end: usize = hi;
    while end > lo && v[end - 1] == x
        invariant
            lo <= end <= hi <= v@.len(),
            p == is_char(x),
            strip_end(v@.subrange(lo as int, hi as int), p) == strip_end(
                v@.subrange(lo as int, end as int),
                p,
            ),
        decreases end - lo,
    {
        assert(v@.subrange(lo as int, end as int).drop_last() =~= v@.subrange(
            lo as int,
            end - 1,
        ));
        end -= 1;
    }
    end
}

/// Where `x` last occurs between `lo` and `hi`.
pub fn find_last(v: &Vec<char>, lo: usize, hi: usize, x: char) -> (index: Option<usize>)
    requires
        lo <= hi <= v@.len(),
    ensures
        match (index, last_index_of(v@.subrange(lo as int, hi as int), x)) {
            (Some(i), Some(k)) => lo <= i < hi && i == lo + k && v@[i as int] == x,
            (None, None) => true,
            _ => false,
        },
{
    let mut end: usize = hi;
    while end > lo
        invariant
            lo <= end <= hi <= v@.len(),
            last_index_of(v@.subrange(lo as int, hi as int), x) == last_index_of(
                v@.subrange(lo as int, end as int),
                x,
            ),
        decreases end - lo,
    {
        if v[end - 1] == x {
            return Some(end - 1);
        }
        assert(v@.subrange(lo as int, end as int).drop_last() =~= v@.subrange(
            lo as int,
            end - 1,
        ));
        end -= 1;
    }
    None
}

/// The parts between `lo` and `hi` that `x` separates.
pub fn split_chars(v: &Vec<char>, lo: usize, hi: usize, x: char) -> (parts: Vec<Vec<char>>)
    requires
        lo <= hi <= v@.len(),
    ensures
        parts@.map_values(|p: Vec<char>| p@) == split_on(v@.subrange(lo as int, hi as int), x),
        parts@.len() >= 1,
{
    let ghost view = |p: Vec<char>| p@;
    let mut done: Vec<Vec<char>> = Vec::new();
    let mut part: Vec<char> = Vec::new();
    let mut i: usize = lo;
    assert(v@.subrange(lo as int, lo as int) =~= Seq::empty());
    assert(done@.map_values(view).push(part@) =~= seq![Seq::<char>::empty()]);
    while i < hi
        invariant
            lo <= i <= hi <= v@.len(),
            view == (|p: Vec<char>| p@),
            done@.map_values(view).push(part@) == split_on(v@.subrange(lo as int, i as int), x),
        decreases hi - i,
    {
        let ghost before = done@.map_values(view);
        let ghost old_part = part@;
        let c = v[i];
        proof {
            assert(v@.subrange(lo as int, i + 1).drop_last() =~= v@.subrange(lo as int, i as int));
        }
        if c == x {
            done.push(part);
            part = Vec::new();
            assert(done@.map_values(view) =~= before.push(old_part));
        } else {
            part.push(c);
            assert(before.push(part@) =~= before.push(old_part).update(
                before.len() as int,
                old_part.push(c),
            ));
        }
        i += 1;
    }
    let ghost before = done@.map_values(view);
    let ghost last = part@;
    done.push(part);
    assert(done@.map_values(view) =~= before.push(last));
    done
}

fn digit_of(c: char) -> (d: Option<u32>)
    ensures
        match (d, digit_value(c)) {
            (Some(x), Some(y)) => x == y && x < 16,
            (None, None) => true,
            _ => false,
        },
{
    let u: u32 = c as u32;
    if 48 <= u && u <= 57 {
        Some(u - 48)
    } else if 65 <= u && u <= 70 {
        Some(u - 55)
    } else if 97 <= u && u <= 102 {
        Some(u - 87)
    } else {
        None
    }
}

proof fn lemma_numeral_grows(s: Seq<char>, k: int, base: nat)
    requires
        0 <= k <= s.len(),
        base >= 1,
    ensures
        numeral(s.subrange(0, k), base) is None ==> numeral(s, base) is None,
        numeral(s, base) matches Some(n) ==> (numeral(s.subrange(0, k), base) matches Some(m) && m
            <= n),
    decreases s.len() - k,
{
    if k == s.len() {
        assert(s.subrange(0, k) =~= s);
    } else {
        lemma_numeral_grows(s, k + 1, base);
        assert(s.subrange(0, k + 1).drop_last() =~= s.subrange(0, k));
        if let Some(m) = numeral(s.subrange(0, k), base) {
            assert(m <= m * base) by (nonlinear_arith)
                requires
                    base >= 1,
            ;
        }
    }
}

/// The number that the digits between `lo` and `hi` spell, if it is one and is
/// at most `max`.
pub fn parse_numeral(v: &Vec<char>, lo: usize, hi: usize, base: u32, max: u32) -> (n: Option<u32>)
    requires
        lo <= hi <= v@.len(),
        1 <= base <= 16,
        max <= 0xFFFF,
    ensures
        n is Some <==> (numeral(v@.subrange(lo as int, hi as int), base as nat) matches Some(m)
            && m <= max),
        n matches Some(x) ==> numeral(v@.subrange(lo as int, hi as int), base as nat) == Some(
            x as nat,
        ),
{
    let ghost s = v@.subrange(lo as int, hi as int);
    let mut n: u32 = 0;
    let mut i: usize = lo;
    assert(s.subrange(0, 0) =~= Seq::empty());
    while i < hi
        invariant
            lo <= i <= hi <= v@.len(),
            s == v@.subrange(lo as int, hi as int),
            1 <= base <= 16,
            max <= 0xFFFF,
            n <= max,
            numeral(s.subrange(0, i - lo), base as nat) == Some(n as nat),
        decreases hi - i,
    {
        proof {
            assert(s.subrange(0, i - lo + 1).drop_last() =~= s.subrange(0, i - lo));
            lemma_numeral_grows(s, i - lo + 1, base as nat);
            assert(n * base <= 0xFFFF * 16) by (nonlinear_arith)
                requires
                    n <= 0xFFFF,
                    base <= 16,
            ;
        }
        match digit_of(v[i]) {
            Some(d) => {
                if d >= base {
                    return None;
                }
                let next: u32 = n * base + d;
                if next > max {
                    return None;
                }
                n = next;
            },
            None => {
                return None;
            },
        }
        i += 1;
    }
    assert(s.subrange(0, i - lo) =~= s);
    Some(n)
}

/// The part of `v` between `lo` and `hi` with its ASCII letters in lower case.
pub fn to_lower_case(v: &Vec<char>, lo: usize, hi: usize) -> (out: Vec<char>)
    requires
        lo <= hi <= v@.len(),
    ensures
        out@ == lower_case(v@.subrange(lo as int, hi as int)),
{
    let ghost s = v@.subrange(lo as int, hi as int);
    let mut out: Vec<char> = Vec::new();
    let mut i: usize = lo;
    while i < hi
        invariant
            lo <= i <= hi <= v@.len(),
            s == v@.subrange(lo as int, hi as int),
            out@ == lower_case(s).subrange(0, i - lo),
        decreases hi - i,
    {
        let c = v[i];
        let u: u32 = c as u32;
        let low = if 65 <= u && u <= 90 {
            ((u + 32) as u8) as char
        } else {
            c
        };
        assert(low == lower(c));
        out.push(low);
        i += 1;
        assert(out@ =~= lower_case(s).subrange(0, i - lo));
    }
    assert(out@ =~= lower_case(s));
    out
}

} // verus!
