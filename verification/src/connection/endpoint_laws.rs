//! Which endpoints node urls name, and which endpoints are the same node.

use vstd::prelude::*;

use super::ip::{
    double_colon, group_run, hex_group, hex_groups, ipv4_halves, ipv6_groups, is_loopback_ip,
    is_one, lemma_loopback_ip_has_no_final_dot, octet,
};
use super::{
    bare, endpoint_of, endpoint_text, lemma_decimal_reads_back, lemma_last_index_split, normalized,
    port_of, same_node, unbracketed, EndpointView,
};
use crate::chars::{
    digit_value, is_char, is_space, lower, lower_case, numeral, split_on, trimmed,
    without_trailing,
};
use crate::chars_laws::{
    law_last_index_of, law_nothing_to_strip, law_numeral, law_split_on, law_split_parts,
    law_strip_end, law_strip_start, law_trimmed,
};
use crate::text::{decimal, digit};

verus! {

/// White space around a node url does not matter.
pub proof fn law_urls_are_trimmed(url: Seq<char>)
    ensures
        endpoint_of(url) == endpoint_of(trimmed(url)),
{
    law_trimmed(url);
}

/// What stands before the last colon of a node url is the host, without the
/// brackets around it, and what stands behind it is the port. The url is
/// refused for the port first, then for an empty host.
pub proof fn law_url_is_host_and_port(host: Seq<char>, port: Seq<char>)
    requires
        forall|i: int| 0 <= i < port.len() ==> #[trigger] port[i] != ':',
        trimmed(host.push(':') + port) == host.push(':') + port,
    ensures
        ({
            let url = host.push(':') + port;
            &&& endpoint_of(url) is Ok <==> port_of(port) is Some && unbracketed(host).len() > 0
            &&& endpoint_of(url) matches Ok(e) ==> e.host == unbracketed(host) && port_of(port)
                == Some(e.port)
            &&& port_of(port) is None ==> endpoint_of(url) == Err::<EndpointView, Seq<char>>(
                "invalid node url '"@ + url + "': bad port '"@ + port + "'"@,
            )
            &&& port_of(port) is Some && unbracketed(host).len() == 0 ==> endpoint_of(url) == Err::<
                EndpointView,
                Seq<char>,
            >("invalid node url '"@ + url + "': empty host"@)
        }),
{
    let url = host.push(':') + port;
    assert(!port.contains(':'));
    lemma_last_index_split(host, ':', port);
    let i = host.len() as int;
    assert(url.subrange(i + 1, url.len() as int) =~= port);
    assert(url.subrange(0, i) =~= host);
}

/// A text without a colon is no node url.
pub proof fn law_url_needs_a_colon(url: Seq<char>)
    requires
        trimmed(url) == url,
        forall|i: int| 0 <= i < url.len() ==> #[trigger] url[i] != ':',
    ensures
        endpoint_of(url) == Err::<EndpointView, Seq<char>>(
            "invalid node url '"@ + url + "': expected host:port"@,
        ),
{
    law_last_index_of(url, ':');
}

/// A port is one or more decimal digits, behind a plus sign or not, that spell
/// a number up to 65535; it is that number.
pub proof fn law_ports(digits: Seq<char>)
    requires
        digits.len() > 0 ==> digits[0] != '+',
    ensures
        port_of(digits) == port_of(seq!['+'] + digits),
        port_of(digits) is Some <==> digits.len() > 0 && (forall|i: int|
            0 <= i < digits.len() ==> '0' as u32 <= (#[trigger] digits[i]) as u32 <= '9' as u32)
            && numeral(digits, 10)->0 < 0x1_0000,
        port_of(digits) matches Some(p) ==> numeral(digits, 10) == Some(p as nat),
{
    assert((seq!['+'] + digits).drop_first() =~= digits);
    law_numeral(digits, 10, '0');
    if numeral(digits, 10) is Some {
        assert forall|i: int| 0 <= i < digits.len() implies '0' as u32 <= (
        #[trigger] digits[i]) as u32 <= '9' as u32 by {
            assert(digit_value(digits[i]) matches Some(d) && d < 10);
        }
    } else if forall|i: int|
        0 <= i < digits.len() ==> '0' as u32 <= (#[trigger] digits[i]) as u32 <= '9' as u32 {
        assert forall|i: int| 0 <= i < digits.len() implies (digit_value(
            #[trigger] digits[i],
        ) matches Some(d) && d < 10) by {
            assert('0' as u32 <= digits[i] as u32 <= '9' as u32);
        }
    }
}

/// The decimal numeral of every port is that port.
pub proof fn law_port_numerals(port: u16)
    ensures
        port_of(decimal(port as nat)) == Some(port),
{
    lemma_decimal_reads_back(port as nat);
    assert(decimal(port as nat)[0] as u32 >= 48);
}

/// Brackets are taken off a host that has both, once; any other host stays as
/// it is.
pub proof fn law_brackets_come_off(host: Seq<char>)
    ensures
        unbracketed(seq!['['] + host + seq![']']) == host,
        host.len() < 2 || host[0] != '[' || host.last() != ']' ==> unbracketed(host) == host,
{
    assert((seq!['['] + host + seq![']']).subrange(1, host.len() as int + 1) =~= host);
}

/// The text of an endpoint ends with a colon and the port's numeral; before it
/// stands the host, in brackets if and only if it holds a colon itself.
pub proof fn law_endpoint_text(e: EndpointView)
    ensures
        e.host.contains(':') ==> endpoint_text(e) == seq!['['] + e.host + seq![']', ':'] + decimal(
            e.port as nat,
        ),
        !e.host.contains(':') ==> endpoint_text(e) == e.host + seq![':'] + decimal(e.port as nat),
{
    reveal_strlit("[");
    reveal_strlit("]:");
    reveal_strlit(":");
    assert("["@ =~= seq!['[']);
    assert("]:"@ =~= seq![']', ':']);
    assert(":"@ =~= seq![':']);
}

/// Whether a host is written plainly: not empty, without white space or
/// brackets at its ends and without a dot at its end.
pub open spec fn plain(host: Seq<char>) -> bool {
    &&& host.len() > 0
    &&& !is_space(host[0])
    &&& !is_space(host.last())
    &&& host[0] != '['
    &&& host.last() != ']'
    &&& host.last() != '.'
}

/// Plainly written endpoints are the same node if and only if their ports are
/// equal and their hosts are, up to case, equal or both the local host: by that
/// name or by a loopback address.
pub proof fn law_same_node(a: EndpointView, b: EndpointView)
    requires
        plain(a.host),
        plain(b.host),
    ensures
        same_node(a, b) <==> {
            &&& a.port == b.port
            &&& {
                ||| lower_case(a.host) == lower_case(b.host)
                ||| (lower_case(a.host) == "localhost"@ || is_loopback_ip(lower_case(a.host))) && (
                lower_case(b.host) == "localhost"@ || is_loopback_ip(lower_case(b.host)))
            }
        },
{
    lemma_plain(a.host);
    lemma_plain(b.host);
}

proof fn lemma_plain(host: Seq<char>)
    requires
        plain(host),
    ensures
        bare(host) == lower_case(host),
        normalized(host) == lower_case(host),
{
    law_nothing_to_strip(host, '[');
    law_nothing_to_strip(host, ']');
    let low = lower_case(host);
    assert(low.len() == host.len());
    assert(low.last() == lower(host.last()));
    assert(low.last() != '.');
    law_nothing_to_strip(low, '.');
}

/// Endpoints on different ports are different nodes, whatever their hosts.
pub proof fn law_ports_tell_nodes_apart(a: EndpointView, b: EndpointView)
    requires
        a.port != b.port,
    ensures
        !same_node(a, b),
{
}

/// White space around hosts does not matter for which nodes they are.
pub proof fn law_white_space_does_not_tell_nodes_apart(a: EndpointView, b: EndpointView)
    ensures
        same_node(
            EndpointView { host: trimmed(a.host), port: a.port },
            EndpointView { host: trimmed(b.host), port: b.port },
        ) == same_node(a, b),
{
    law_trimmed(a.host);
    law_trimmed(b.host);
}

proof fn lemma_small_decimal(n: nat)
    requires
        n <= 255,
    ensures
        octet(decimal(n)) == Some(n),
        forall|i: int| 0 <= i < decimal(n).len() ==> #[trigger] decimal(n)[i] != '.',
        forall|i: int| 0 <= i < decimal(n).len() ==> #[trigger] decimal(n)[i] != ':',
{
    lemma_decimal_reads_back(n);
    reveal_with_fuel(decimal, 4);
    if n >= 100 {
        assert(decimal(n).len() == 3);
        assert(decimal(n)[0] == digit((n / 100) as int));
    } else if n >= 10 {
        assert(decimal(n).len() == 2);
        assert(decimal(n)[0] == digit((n / 10) as int));
    } else {
        assert(decimal(n).len() == 1);
    }
}

proof fn lemma_decimal_digit(c: char)
    ensures
        digit_value(c) matches Some(d) ==> d < 10 ==> digit(d as int) == c,
        digit_value(c) == Some(0nat) ==> c == '0',
{
}

proof fn lemma_numeral_is_positive(s: Seq<char>)
    requires
        s.len() > 0,
        numeral(s, 10) is Some,
        s[0] != '0',
    ensures
        numeral(s, 10)->0 > 0,
    decreases s.len(),
{
    if s.len() == 1 {
        assert(s.drop_last() =~= Seq::empty());
        assert(numeral(s.drop_last(), 10) == Some(0nat));
        assert(s.last() == s[0]);
        lemma_decimal_digit(s[0]);
    } else {
        assert(s.drop_last()[0] == s[0]);
        lemma_numeral_is_positive(s.drop_last());
    }
}

/// The decimal numeral of a number is the only one without leading zeros that
/// spells it.
pub proof fn law_decimal_is_the_only_numeral(s: Seq<char>, n: nat)
    requires
        s.len() > 0,
        s.len() == 1 || s[0] != '0',
        numeral(s, 10) == Some(n),
    ensures
        s == decimal(n),
    decreases s.len(),
{
    let rest = s.drop_last();
    let d = digit_value(s.last())->0;
    assert(digit_value(s.last()) is Some && d < 10);
    lemma_decimal_digit(s.last());
    if s.len() == 1 {
        assert(rest =~= Seq::empty());
        assert(s =~= decimal(n));
    } else {
        let m = numeral(rest, 10)->0;
        assert(rest[0] == s[0]);
        lemma_numeral_is_positive(rest);
        law_decimal_is_the_only_numeral(rest, m);
        assert(n == m * 10 + d);
        assert(n / 10 == m && n % 10 == d);
        assert(s =~= decimal(n));
    }
}

/// An octet is the decimal numeral of a number up to 255, without leading zeros.
pub proof fn law_octets(s: Seq<char>, n: nat)
    ensures
        octet(s) == Some(n) <==> n <= 255 && s == decimal(n),
{
    if octet(s) == Some(n) {
        law_decimal_is_the_only_numeral(s, n);
    }
    if n <= 255 {
        lemma_small_decimal(n);
    }
}

/// An IPv4 address has exactly four parts, all octets; the first two make up its
/// high half and the last two its low half.
pub proof fn law_ipv4_has_four_octets(s: Seq<char>)
    ensures
        ipv4_halves(s) is Some <==> split_on(s, '.').len() == 4 && forall|k: int|
            0 <= k < 4 ==> octet(#[trigger] split_on(s, '.')[k]) is Some,
        ipv4_halves(s) matches Some(halves) ==> {
            let parts = split_on(s, '.');
            &&& halves.0 / 256 == octet(parts[0])->0
            &&& halves.0 % 256 == octet(parts[1])->0
            &&& halves.1 / 256 == octet(parts[2])->0
            &&& halves.1 % 256 == octet(parts[3])->0
        },
{
    let parts = split_on(s, '.');
    if parts.len() == 4 && forall|k: int| 0 <= k < 4 ==> octet(#[trigger] parts[k]) is Some {
        assert(octet(parts[0]) is Some);
        assert(octet(parts[1]) is Some);
        assert(octet(parts[2]) is Some);
        assert(octet(parts[3]) is Some);
    }
}

proof fn lemma_hex_groups_of_more(a: Seq<Seq<char>>, b: Seq<Seq<char>>, k: nat)
    requires
        k <= a.len(),
        k <= b.len(),
        forall|i: int| 0 <= i < k ==> #[trigger] a[i] == b[i],
    ensures
        hex_groups(a, k) == hex_groups(b, k),
    decreases k,
{
    if k > 0 {
        lemma_hex_groups_of_more(a, b, (k - 1) as nat);
    }
}

/// Four numbers up to 255 in decimal with dots between them are a loopback
/// address if and only if the first is 127.
pub proof fn law_ipv4_loopback(a: nat, b: nat, c: nat, d: nat)
    requires
        a <= 255,
        b <= 255,
        c <= 255,
        d <= 255,
    ensures
        is_loopback_ip(
            ((decimal(a).push('.') + decimal(b)).push('.') + decimal(c)).push('.') + decimal(d),
        ) <==> a == 127,
{
    lemma_small_decimal(a);
    lemma_small_decimal(b);
    lemma_small_decimal(c);
    lemma_small_decimal(d);
    let s1 = decimal(a);
    let s2 = s1.push('.') + decimal(b);
    let s3 = s2.push('.') + decimal(c);
    let s4 = s3.push('.') + decimal(d);
    law_split_on(Seq::empty(), '.', s1);
    law_split_on(s1, '.', decimal(b));
    law_split_on(s2, '.', decimal(c));
    law_split_on(s3, '.', decimal(d));
    let parts = split_on(s4, '.');
    assert(parts.len() == 4);
    assert(parts[0] == decimal(a));
    assert(parts[1] == decimal(b));
    assert(parts[2] == decimal(c));
    assert(parts[3] == decimal(d));
    assert(ipv4_halves(s4) == Some((a * 256 + b, c * 256 + d)));
    assert((a * 256 + b) / 256 == a);
}

/// An IPv6 address has eight groups. A double colon in it stands for the zero
/// groups that are missing, at least one, between those before and behind it.
pub proof fn law_ipv6_has_eight_groups(s: Seq<char>)
    ensures
        ipv6_groups(s) matches Some(groups) ==> groups.len() == 8,
        double_colon(s, 0) matches Some(i) ==> (ipv6_groups(s) matches Some(groups) ==> {
            let head = group_run(s.subrange(0, i), false);
            let tail = group_run(s.subrange(i + 2, s.len() as int), true);
            &&& head is Some
            &&& tail is Some
            &&& head->0.len() + tail->0.len() < 8
            &&& groups.take(head->0.len() as int) == head->0
            &&& groups.skip(8 - tail->0.len()) == tail->0
            &&& forall|k: int|
                head->0.len() <= k < 8 - tail->0.len() ==> #[trigger] groups[k] == 0
        }),
{
    if let Some(i) = double_colon(s, 0) {
        if let Some(groups) = ipv6_groups(s) {
            let head = group_run(s.subrange(0, i), false)->0;
            let tail = group_run(s.subrange(i + 2, s.len() as int), true)->0;
            assert(groups.take(head.len() as int) =~= head);
            assert(groups.skip(8 - tail.len()) =~= tail);
        }
    }
}

/// A text that is no IPv4 address is a loopback address if and only if it is an
/// IPv6 address whose groups are seven zeros and a one.
pub proof fn law_ipv6_loopback(s: Seq<char>)
    requires
        ipv4_halves(s) is None,
    ensures
        is_loopback_ip(s) <==> ipv6_groups(s) == Some(seq![0nat, 0, 0, 0, 0, 0, 0, 1]),
{
    law_ipv6_has_eight_groups(s);
    if let Some(groups) = ipv6_groups(s) {
        if is_one(groups) {
            assert(groups =~= seq![0nat, 0, 0, 0, 0, 0, 0, 1]);
        }
        if groups == seq![0nat, 0, 0, 0, 0, 0, 0, 1] {
            assert(is_one(groups));
        }
    }
}

/// The double colon found is the first one from the given place on; none is
/// found only where there is none.
pub proof fn law_double_colon(s: Seq<char>, from: int)
    requires
        0 <= from,
    ensures
        double_colon(s, from) matches Some(i) ==> {
            &&& from <= i < s.len() - 1
            &&& s[i] == ':' && s[i + 1] == ':'
            &&& forall|j: int| from <= j < i ==> #[trigger] s[j] != ':' || s[j + 1] != ':'
        },
        double_colon(s, from) is None ==> forall|j: int|
            from <= j < s.len() - 1 ==> #[trigger] s[j] != ':' || s[j + 1] != ':',
    decreases s.len() - from,
{
    if from + 1 < s.len() && !(s[from] == ':' && s[from + 1] == ':') {
        law_double_colon(s, from + 1);
    }
}

/// A port has one plus sign at most, and nothing but digits behind it.
pub proof fn law_second_plus_is_refused(rest: Seq<char>)
    ensures
        port_of(seq!['+', '+'] + rest) is None,
        port_of(seq!['+']) is None,
        port_of(Seq::empty()) is None,
{
    let digits = (seq!['+', '+'] + rest).drop_first();
    assert(digits[0] == '+');
    law_numeral(digits, 10, '0');
    assert(digit_value('+') is None);
    assert(seq!['+'].drop_first().len() == 0);
}

proof fn lemma_dots_come_off(s: Seq<char>, n: nat)
    requires
        s.len() > 0,
        s.last() != '.',
    ensures
        without_trailing(s + Seq::new(n, |i: int| '.'), '.') == s,
{
    let dotted = s + Seq::new(n, |i: int| '.');
    let k = law_strip_end(dotted, is_char('.'));
    if k > s.len() {
        assert(dotted[k - 1] == '.');
    }
    if k < s.len() {
        assert(is_char('.')(dotted[s.len() - 1]));
        assert(dotted[s.len() - 1] == s.last());
    }
    assert(dotted.take(s.len() as int) =~= s);
}

/// Dots behind a host do not matter, except that a host is no longer the local
/// one by its spelling: with dots behind it, a host is the same node as another
/// on the same port if and only if they are equal up to case and dots.
pub proof fn law_dots_behind_hosts(host: Seq<char>, dots: nat, other: Seq<char>, port: u16)
    requires
        plain(host),
        plain(other),
        dots > 0,
    ensures
        same_node(
            EndpointView { host: host + Seq::new(dots, |i: int| '.'), port },
            EndpointView { host: other, port },
        ) <==> lower_case(host) == lower_case(other),
{
    let tail = Seq::new(dots, |i: int| '.');
    let dotted = host + tail;
    let low = lower_case(host);
    lemma_plain(other);
    lemma_plain(host);
    assert(dotted[0] == host[0]);
    assert(dotted.last() == '.');
    law_nothing_to_strip(dotted, '[');
    law_nothing_to_strip(dotted, ']');
    assert(lower_case(dotted) =~= low + tail);
    assert(low.last() == lower(host.last()));
    assert(low.last() != '.');
    lemma_dots_come_off(low, dots);
    assert((low + tail).last() == '.');
    if is_loopback_ip(low + tail) {
        lemma_loopback_ip_has_no_final_dot(low + tail);
    }
    reveal_strlit("localhost");
    assert("localhost"@.last() == 't');
}

/// Any number of brackets around a host does not matter for which node it is.
pub proof fn law_brackets_around_hosts(host: Seq<char>, n: nat, m: nat)
    requires
        plain(host),
    ensures
        bare(Seq::new(n, |i: int| '[') + host + Seq::new(m, |i: int| ']')) == bare(host),
{
    let opening = Seq::new(n, |i: int| '[');
    let closing = Seq::new(m, |i: int| ']');
    let s = opening + host + closing;
    lemma_plain(host);
    assert(!is_space('['));
    assert(!is_space(']'));
    assert(s[0] == if n > 0 {
        '['
    } else {
        host[0]
    });
    assert(s.last() == if m > 0 {
        ']'
    } else {
        host.last()
    });
    law_nothing_to_strip(s, '[');
    let k = law_strip_start(s, is_char('['));
    if k > n {
        assert(is_char('[')(s[n as int]));
        assert(s[n as int] == host[0]);
    }
    if k < n {
        assert(s[k] == '[');
    }
    let rest = host + closing;
    assert(s.skip(n as int) =~= rest);
    let j = law_strip_end(rest, is_char(']'));
    if j > host.len() {
        assert(rest[j - 1] == ']');
    }
    if j < host.len() {
        assert(is_char(']')(rest[host.len() - 1]));
        assert(rest[host.len() - 1] == host.last());
    }
    assert(rest.take(host.len() as int) =~= host);
}

/// A host is made bare by taking off white space at both ends, then all opening
/// brackets in front and all closing brackets behind, and nothing else, and by
/// writing the rest in lower case.
pub proof fn law_bare_hosts(host: Seq<char>) -> (ends: (int, int))
    ensures
        0 <= ends.0 <= ends.1 <= trimmed(host).len(),
        bare(host) == lower_case(trimmed(host).subrange(ends.0, ends.1)),
        forall|i: int| 0 <= i < ends.0 ==> #[trigger] trimmed(host)[i] == '[',
        forall|i: int| ends.1 <= i < trimmed(host).len() ==> #[trigger] trimmed(host)[i] == ']',
        ends.0 < ends.1 ==> trimmed(host)[ends.0] != '[' && trimmed(host)[ends.1 - 1] != ']',
{
    let t = trimmed(host);
    let a = law_strip_start(t, is_char('['));
    let rest = t.skip(a);
    let n = law_strip_end(rest, is_char(']'));
    let b = a + n;
    assert(rest.take(n) =~= t.subrange(a, b));
    assert forall|i: int| 0 <= i < a implies #[trigger] t[i] == '[' by {
        assert(is_char('[')(t[i]));
    }
    assert forall|i: int| b <= i < t.len() implies #[trigger] t[i] == ']' by {
        assert(rest[i - a] == t[i]);
        assert(is_char(']')(rest[i - a]));
    }
    if a < b {
        assert(!is_char('[')(t[a]));
        assert(!is_char(']')(rest[n - 1]));
        assert(rest[n - 1] == t[b - 1]);
    }
    (a, b)
}

/// A host is compared without the dots behind its bare form.
pub proof fn law_normalized_hosts(host: Seq<char>)
    ensures
        normalized(host).len() <= bare(host).len(),
        normalized(host) == bare(host).take(normalized(host).len() as int),
        forall|i: int|
            normalized(host).len() <= i < bare(host).len() ==> #[trigger] bare(host)[i] == '.',
        normalized(host).len() > 0 ==> normalized(host).last() != '.',
{
    let b = bare(host);
    let n = law_strip_end(b, is_char('.'));
    assert forall|i: int| n <= i < b.len() implies #[trigger] b[i] == '.' by {
        assert(is_char('.')(b[i]));
    }
    if n > 0 {
        assert(!is_char('.')(b[n - 1]));
        assert(b.take(n).last() == b[n - 1]);
    }
}

/// Two endpoints are the same node if and only if their ports are equal and
/// their hosts are compared as equal or are both, in bare form, the local host.
pub proof fn law_nodes_are_told_by_port_and_host(a: EndpointView, b: EndpointView)
    ensures
        a.port == b.port && normalized(a.host) == normalized(b.host) ==> same_node(a, b),
        same_node(a, b) ==> a.port == b.port,
        same_node(a, b) && normalized(a.host) != normalized(b.host) ==> (bare(a.host)
            == "localhost"@ || is_loopback_ip(bare(a.host))) && (bare(b.host) == "localhost"@
            || is_loopback_ip(bare(b.host))),
        a.port == b.port && (bare(a.host) == "localhost"@ || is_loopback_ip(bare(a.host))) && (bare(
            b.host,
        ) == "localhost"@ || is_loopback_ip(bare(b.host))) ==> same_node(a, b),
{
}

proof fn lemma_ipv4_is_no_group(part: Seq<char>)
    ensures
        ipv4_halves(part) is Some ==> hex_group(part) is None,
{
    if ipv4_halves(part) is Some {
        if forall|i: int| 0 <= i < part.len() ==> #[trigger] part[i] != '.' {
            law_split_on(Seq::empty(), '.', part);
            assert(split_on(part, '.').len() == 1);
        }
        let i = choose|i: int| 0 <= i < part.len() && #[trigger] part[i] == '.';
        law_numeral(part, 16, '0');
        assert(digit_value('.') is None);
        assert(digit_value(part[i]) is None);
    }
}

/// A run of groups is one more part than the run before its last colon. The part
/// is a group of its own, or, where that is allowed, an IPv4 address that makes
/// two groups; with any other part, or a run before it that is none, it is no
/// run.
pub proof fn law_group_runs_grow(head: Seq<char>, part: Seq<char>, ipv4_last: bool)
    requires
        head.len() > 0,
        forall|i: int| 0 <= i < part.len() ==> #[trigger] part[i] != ':',
    ensures
        group_run(head.push(':') + part, ipv4_last) == match (
            group_run(head, false),
            ipv4_halves(part),
            hex_group(part),
        ) {
            (Some(groups), Some(halves), _) => if ipv4_last {
                Some(groups + seq![halves.0, halves.1])
            } else {
                None
            },
            (Some(groups), None, Some(g)) => Some(groups + seq![g]),
            _ => None,
        },
{
    law_split_on(head, ':', part);
    law_split_parts(head, ':');
    let before = split_on(head, ':');
    let parts = split_on(head.push(':') + part, ':');
    let n = before.len();
    lemma_hex_groups_of_more(before, parts, n);
    assert(before[n - 1] == before.last());
    assert(parts.last() == part);
    assert(parts.len() == n + 1);
    lemma_ipv4_is_no_group(before.last());
    assert(hex_groups(before, n) == group_run(head, false));
    if let Some(groups) = group_run(head, false) {
        if let Some(halves) = ipv4_halves(part) {
            assert(groups.push(halves.0).push(halves.1) =~= groups + seq![halves.0, halves.1]);
        } else if let Some(g) = hex_group(part) {
            assert(groups.push(g) =~= groups + seq![g]);
        }
    }
}

/// A run of a single part is a group or, where that is allowed, an IPv4 address
/// that makes two groups; an empty text is a run of no groups.
pub proof fn law_single_group_runs(part: Seq<char>, ipv4_last: bool)
    requires
        forall|i: int| 0 <= i < part.len() ==> #[trigger] part[i] != ':',
    ensures
        part.len() == 0 ==> group_run(part, ipv4_last) == Some(Seq::<nat>::empty()),
        part.len() > 0 ==> group_run(part, ipv4_last) == match (ipv4_halves(part), hex_group(part)) {
            (Some(halves), _) => if ipv4_last {
                Some(seq![halves.0, halves.1])
            } else {
                None
            },
            (None, Some(g)) => Some(seq![g]),
            _ => None,
        },
{
    law_split_on(Seq::empty(), ':', part);
    let none = Seq::<nat>::empty();
    assert(hex_groups(split_on(part, ':'), 0) == Some(none));
    if let Some(halves) = ipv4_halves(part) {
        assert(none.push(halves.0).push(halves.1) =~= seq![halves.0, halves.1]);
    } else if let Some(g) = hex_group(part) {
        assert(none.push(g) =~= seq![g]);
    }
}

/// A group is one to four hexadecimal digits, and is the number they spell.
pub proof fn law_hex_groups(s: Seq<char>)
    ensures
        s.len() == 0 || s.len() > 4 ==> hex_group(s) is None,
        1 <= s.len() <= 4 ==> hex_group(s) == numeral(s, 16),
{
}

} // verus!
