//! Endpoints of IoTDB nodes, the settings for connecting to them, and the
//! decisions taken while a connection is opened.
//!
//! A connection is TCP (optionally TLS) → TFramedTransport → TBinaryProtocol
//! (or TCompactProtocol when RPC compression is enabled) → RPC client.

use vstd::prelude::*;
use vstd::string::*;

pub mod endpoint_laws;
pub mod ip;
pub mod pem_break;
pub mod tls;
pub mod tls_laws;
pub mod tls_setup;

pub use tls::TlsOptions;

use crate::chars::{
    digit_value, find_last, is_char, is_space, last_index_of, lower, lower_case, numeral,
    parse_numeral, skip_char, skip_char_back, skip_spaces, skip_spaces_back, strip_end,
    strip_start, to_lower_case, trimmed, without_leading, without_trailing,
};
use crate::error::{Error, ErrorView, Result};
use crate::text::{chars_of, decimal, push_decimal, string_of};
use crate::time::{Duration, Instant, MAX_INSTANT_NANOS};
use ip::{is_loopback_ip, lemma_loopback_ip_has_no_final_dot, loopback_ip};
use tls::{copy_tls, TlsOptionsView};

verus! {

/// Default IoTDB DataNode RPC port.
pub const DEFAULT_PORT: u16 = 6667;

/// Wire protocol used on top of the framed transport.
///
/// IoTDB's Thrift server speaks **one** protocol per server instance,
/// chosen by the server config `dn_rpc_thrift_compression_enable`
/// (default `false` → binary). There is **no** per-connection
/// auto-detection: a compact-protocol client against a binary-protocol
/// server fails at the first RPC, and vice versa — pick the protocol that
/// matches the server.
#[derive(Debug, Clone, Copy, PartialEq, Eq, Structural)]
pub enum RpcProtocol {
    /// Strict TBinaryProtocol — matches the server default.
    Binary,
    /// TCompactProtocol — matches `dn_rpc_thrift_compression_enable=true`
    /// ("RPC compression" in IoTDB terms is the compact protocol, not a
    /// compressed stream).
    Compact,
}

impl Default for RpcProtocol {
    fn default() -> (protocol: RpcProtocol)
        ensures
            protocol == RpcProtocol::Binary,
    {
        RpcProtocol::Binary
    }
}

/// How to open a [`Connection`]: timeouts, wire protocol, optional TLS.
#[derive(Debug)]
pub struct ConnectionOptions {
    /// Total TCP connect timeout per endpoint attempt (shared across every
    /// resolved address of that endpoint). Default 10 s.
    pub connect_timeout: Duration,
    /// Client-side bound on each blocking socket read/write (SO_RCVTIMEO /
    /// SO_SNDTIMEO), applied after the TCP connect and **before** the TLS
    /// handshake, so it bounds the handshake, every RPC read and the
    /// best-effort drop-time `closeSession` alike. `None` leaves blocking
    /// unbounded. Default 60 s (matches the default server-side
    /// `query_timeout_ms`).
    pub socket_timeout: Option<Duration>,
    /// Wire protocol; must match the server (see [`RpcProtocol`]).
    pub protocol: RpcProtocol,
    /// Wrap the TCP stream in TLS before the Thrift transports.
    pub tls: Option<TlsOptions>,
}

/// Connection settings with their texts as character sequences.
#[verifier::ext_equal]
pub struct ConnectionOptionsView {
    pub connect_timeout: Duration,
    pub socket_timeout: Option<Duration>,
    pub protocol: RpcProtocol,
    pub tls: Option<TlsOptionsView>,
}

/// TLS settings, where there are any.
pub open spec fn tls_view(tls: Option<TlsOptions>) -> Option<TlsOptionsView> {
    match tls {
        Some(t) => Some(t@),
        None => None,
    }
}

impl View for ConnectionOptions {
    type V = ConnectionOptionsView;

    open spec fn view(&self) -> ConnectionOptionsView {
        ConnectionOptionsView {
            connect_timeout: self.connect_timeout,
            socket_timeout: self.socket_timeout,
            protocol: self.protocol,
            tls: tls_view(self.tls),
        }
    }
}

impl Default for ConnectionOptions {
    fn default() -> (options: ConnectionOptions)
        ensures
            options.connect_timeout.nanos == 10_000_000_000,
            options.socket_timeout matches Some(t) && t.nanos == 60_000_000_000,
            options.protocol == RpcProtocol::Binary,
            options.tls is None,
    {
        ConnectionOptions {
            connect_timeout: Duration::from_secs(10),
            socket_timeout: Some(Duration::from_secs(60)),
            protocol: RpcProtocol::Binary,
            tls: None,
        }
    }
}

impl Clone for ConnectionOptions {
    fn clone(&self) -> (copy: ConnectionOptions)
        ensures
            copy@ == self@,
    {
        ConnectionOptions {
            connect_timeout: self.connect_timeout,
            socket_timeout: self.socket_timeout,
            protocol: self.protocol,
            tls: copy_tls(&self.tls),
        }
    }
}

/// A single endpoint `host:port` of an IoTDB DataNode (default port 6667).
#[derive(Debug, Eq)]
pub struct Endpoint {
    pub host: String,
    pub port: u16,
}

/// An endpoint with its host as a character sequence.
#[verifier::ext_equal]
pub struct EndpointView {
    pub host: Seq<char>,
    pub port: u16,
}

impl View for Endpoint {
    type V = EndpointView;

    open spec fn view(&self) -> EndpointView {
        EndpointView { host: self.host@, port: self.port }
    }
}

impl Clone for Endpoint {
    fn clone(&self) -> (copy: Endpoint)
        ensures
            copy == *self,
    {
        Endpoint { host: self.host.clone(), port: self.port }
    }
}

impl PartialEq for Endpoint {
    fn eq(&self, other: &Endpoint) -> (same: bool) {
        self.host == other.host && self.port == other.port
    }
}

impl vstd::std_specs::cmp::PartialEqSpecImpl for Endpoint {
    open spec fn obeys_eq_spec() -> bool {
        true
    }

    open spec fn eq_spec(&self, other: &Endpoint) -> bool {
        self@ == other@
    }
}

/// The port that the text spells: an optional `+`, then decimal digits, at
/// most 65535.
pub open spec fn port_of(s: Seq<char>) -> Option<u16> {
    let digits = if s.len() > 0 && s[0] == '+' {
        s.drop_first()
    } else {
        s
    };
    if digits.len() == 0 {
        None
    } else {
        match numeral(digits, 10) {
            Some(n) => if n <= 65535 {
                Some(n as u16)
            } else {
                None
            },
            None => None,
        }
    }
}

/// A host without the `[` `]` around it, where it has both.
pub open spec fn unbracketed(host: Seq<char>) -> Seq<char> {
    if host.len() >= 2 && host[0] == '[' && host.last() == ']' {
        host.subrange(1, host.len() - 1)
    } else {
        host
    }
}

/// The endpoint that a node url names, or the complaint about it. The part
/// behind the last `:` is the port.
pub open spec fn endpoint_of(url: Seq<char>) -> std::result::Result<EndpointView, Seq<char>> {
    let s = trimmed(url);
    match last_index_of(s, ':') {
        None => Err("invalid node url '"@ + s + "': expected host:port"@),
        Some(i) => {
            let port_part = s.subrange(i + 1, s.len() as int);
            match port_of(port_part) {
                None => Err("invalid node url '"@ + s + "': bad port '"@ + port_part + "'"@),
                Some(port) => {
                    let host = unbracketed(s.subrange(0, i));
                    if host.len() == 0 {
                        Err("invalid node url '"@ + s + "': empty host"@)
                    } else {
                        Ok(EndpointView { host, port })
                    }
                },
            }
        },
    }
}

/// An endpoint as a node url; a host that contains `:` stands in brackets.
pub open spec fn endpoint_text(e: EndpointView) -> Seq<char> {
    if e.host.contains(':') {
        "["@ + e.host + "]:"@ + decimal(e.port as nat)
    } else {
        e.host + ":"@ + decimal(e.port as nat)
    }
}

/// A host without surrounding white space, leading `[`s and trailing `]`s, in
/// lower case.
pub open spec fn bare(host: Seq<char>) -> Seq<char> {
    lower_case(without_trailing(without_leading(trimmed(host), '['), ']'))
}

/// A bare host without trailing dots.
pub open spec fn normalized(host: Seq<char>) -> Seq<char> {
    without_trailing(bare(host), '.')
}

/// Whether a bare host is `localhost` or a loopback IP address.
pub open spec fn is_loopback(host: Seq<char>) -> bool {
    host == "localhost"@ || is_loopback_ip(host)
}

/// Whether two endpoints count as the same node: same port, and hosts that
/// are the same once normalized or are both loopback spellings once bare.
pub open spec fn same_node(a: EndpointView, b: EndpointView) -> bool {
    a.port == b.port && (normalized(a.host) == normalized(b.host) || (is_loopback(bare(a.host))
        && is_loopback(bare(b.host))))
}

fn parse_port(v: &Vec<char>, lo: usize, hi: usize) -> (port: Option<u16>)
    requires
        lo <= hi <= v@.len(),
    ensures
        port == port_of(v@.subrange(lo as int, hi as int)),
{
    let ghost s = v@.subrange(lo as int, hi as int);
    let start: usize = if lo < hi && v[lo] == '+' {
        assert(s.drop_first() =~= v@.subrange(lo + 1, hi as int));
        lo + 1
    } else {
        lo
    };
    if start == hi {
        return None;
    }
    match parse_numeral(v, start, hi, 10, 65535) {
        Some(n) => Some(n as u16),
        None => None,
    }
}

fn bad_url(s: &String, complaint: &str) -> (e: Error)
    ensures
        e@ == ErrorView::Client("invalid node url '"@ + s@ + complaint@),
{
    let mut m = "invalid node url '".to_owned();
    m.append(s.as_str());
    m.append(complaint);
    Error::Client(m)
}

fn bare_host(host: &str) -> (out: Vec<char>)
    ensures
        out@ == bare(host@),
{
    let v = chars_of(host);
    let n: usize = v.len();
    assert(v@.subrange(0, n as int) =~= v@);
    let lo: usize = skip_spaces(&v, 0, n);
    let hi: usize = skip_spaces_back(&v, lo, n);
    let lo: usize = skip_char(&v, lo, hi, '[');
    let hi: usize = skip_char_back(&v, lo, hi, ']');
    to_lower_case(&v, lo, hi)
}

/// Whether two bare hosts are the same but for trailing dots.
fn same_names(a: &Vec<char>, b: &Vec<char>) -> (same: bool)
    ensures
        same == (without_trailing(a@, '.') == without_trailing(b@, '.')),
{
    let m: usize = skip_char_back(a, 0, a.len(), '.');
    let n: usize = skip_char_back(b, 0, b.len(), '.');
    assert(a@.subrange(0, a@.len() as int) =~= a@);
    assert(b@.subrange(0, b@.len() as int) =~= b@);
    let ghost x = a@.subrange(0, m as int);
    let ghost y = b@.subrange(0, n as int);
    assert(x == without_trailing(a@, '.') && y == without_trailing(b@, '.'));
    assert(x.len() == m && y.len() == n);
    if m != n {
        return false;
    }
    let mut i: usize = 0;
    while i < n
        invariant
            i <= n,
            n == m,
            m <= a@.len(),
            n <= b@.len(),
            x == a@.subrange(0, m as int),
            y == b@.subrange(0, n as int),
            x == without_trailing(a@, '.'),
            y == without_trailing(b@, '.'),
            forall|k: int| 0 <= k < i ==> x[k] == y[k],
        decreases n - i,
    {
        assert(x[i as int] == a@[i as int] && y[i as int] == b@[i as int]);
        if a[i] != b[i] {
            return false;
        }
        i += 1;
    }
    assert(x =~= y);
    true
}

fn same_chars(a: &Vec<char>, b: &Vec<char>) -> (same: bool)
    ensures
        same == (a@ == b@),
{
    if a.len() != b.len() {
        return false;
    }
    let mut i: usize = 0;
    while i < a.len()
        invariant
            i <= a@.len() == b@.len(),
            forall|k: int| 0 <= k < i ==> a@[k] == b@[k],
        decreases a@.len() - i,
    {
        if a[i] != b[i] {
            return false;
        }
        i += 1;
    }
    assert(a@ =~= b@);
    true
}

fn is_loopback_host(host: &Vec<char>) -> (yes: bool)
    ensures
        yes == is_loopback(host@),
{
    same_chars(host, &chars_of("localhost")) || loopback_ip(host)
}

impl Endpoint {
    /// The endpoint `host:port`.
    pub fn new(host: &str, port: u16) -> (e: Endpoint)
        ensures
            e@ == (EndpointView { host: host@, port }),
    {
        Endpoint { host: host.to_owned(), port }
    }

    /// Parse a `"host:port"` node-url string.
    ///
    /// Splits on the **last** `:` so IPv6 literals work; surrounding `[]`
    /// brackets on the host part are stripped (e.g. `"[::1]:6667"` → host `::1`).
    pub fn parse(s: &str) -> (e: Result<Endpoint>)
        ensures
            match (e, endpoint_of(s@)) {
                (Ok(endpoint), Ok(expected)) => endpoint@ == expected,
                (Err(error), Err(m)) => error@ == ErrorView::Client(m),
                _ => false,
            },
    {
        let v = chars_of(s);
        let n: usize = v.len();
        assert(v@.subrange(0, n as int) =~= v@);
        let lo: usize = skip_spaces(&v, 0, n);
        let hi: usize = skip_spaces_back(&v, lo, n);
        let url = string_of(&v, lo, hi);
        let ghost t = trimmed(s@);
        match find_last(&v, lo, hi, ':') {
            None => Err(bad_url(&url, "': expected host:port")),
            Some(idx) => {
                assert(t.subrange(idx - lo + 1, t.len() as int) =~= v@.subrange(
                    idx + 1,
                    hi as int,
                ));
                assert(t.subrange(0, idx - lo) =~= v@.subrange(lo as int, idx as int));
                match parse_port(&v, idx + 1, hi) {
                    None => {
                        let mut m = "invalid node url '".to_owned();
                        m.append(url.as_str());
                        m.append("': bad port '");
                        m.append(string_of(&v, idx + 1, hi).as_str());
                        m.append("'");
                        Err(Error::Client(m))
                    },
                    Some(port) => {
                        let ghost host_part = v@.subrange(lo as int, idx as int);
                        let host = if idx - lo >= 2 && v[lo] == '[' && v[idx - 1] == ']' {
                            assert(host_part.subrange(1, host_part.len() - 1) =~= v@.subrange(
                                lo + 1,
                                idx - 1,
                            ));
                            string_of(&v, lo + 1, idx - 1)
                        } else {
                            string_of(&v, lo, idx)
                        };
                        if host.as_str().is_empty() {
                            Err(bad_url(&url, "': empty host"))
                        } else {
                            Ok(Endpoint { host, port })
                        }
                    },
                }
            },
        }
    }

    /// Loose equality for redirect-hint matching: the port must match and
    /// the host compares case-insensitively after trimming and stripping
    /// IPv6 brackets; loopback spellings (`localhost`, `127.x.y.z`,
    /// `::1`) are equivalent to each other. General hostname-vs-IP
    /// resolution would need DNS and is deliberately not done here. Trailing
    /// dots count for nothing when two names are compared; a loopback
    /// spelling has none.
    pub fn equivalent(&self, other: &Endpoint) -> (same: bool)
        ensures
            same == same_node(self@, other@),
    {
        if self.port != other.port {
            return false;
        }
        let a = bare_host(self.host.as_str());
        let b = bare_host(other.host.as_str());
        same_names(&a, &b) || (is_loopback_host(&a) && is_loopback_host(&b))
    }

    /// The endpoint as a node url.
    pub fn to_string(&self) -> (url: String)
        ensures
            url@ == endpoint_text(self@),
    {
        let v = chars_of(self.host.as_str());
        let n: usize = v.len();
        assert(v@.subrange(0, n as int) =~= v@);
        let colon = find_last(&v, 0, n, ':');
        proof {
            lemma_last_index_of(v@, ':');
        }
        if colon.is_some() {
            let mut url = "[".to_owned();
            url.append(self.host.as_str());
            url.append("]:");
            push_decimal(&mut url, self.port as u64);
            url
        } else {
            let mut url = self.host.clone();
            url.append(":");
            push_decimal(&mut url, self.port as u64);
            url
        }
    }
}

proof fn lemma_last_index_of(s: Seq<char>, x: char)
    ensures
        last_index_of(s, x) is Some <==> s.contains(x),
    decreases s.len(),
{
    if s.len() > 0 {
        lemma_last_index_of(s.drop_last(), x);
        if s.last() == x {
            assert(s[s.len() - 1] == x);
        } else if s.contains(x) {
            let k = choose|k: int| 0 <= k < s.len() && s[k] == x;
            assert(s.drop_last()[k] == x);
        } else if s.drop_last().contains(x) {
            let k = choose|k: int| 0 <= k < s.drop_last().len() && s.drop_last()[k] == x;
            assert(s[k] == x);
        }
    }
}

pub proof fn lemma_last_index_split(a: Seq<char>, x: char, b: Seq<char>)
    requires
        !b.contains(x),
    ensures
        last_index_of(a.push(x) + b, x) == Some(a.len() as int),
    decreases b.len(),
{
    let s = a.push(x) + b;
    if b.len() == 0 {
        assert(s =~= a.push(x));
    } else {
        assert(s.last() == b.last());
        assert(b.contains(b.last()));
        assert forall|c: char| b.drop_last().contains(c) implies b.contains(c) by {
            let k = choose|k: int| 0 <= k < b.drop_last().len() && b.drop_last()[k] == c;
            assert(b[k] == c);
        }
        lemma_last_index_split(a, x, b.drop_last());
        assert(s.drop_last() =~= a.push(x) + b.drop_last());
    }
}

pub proof fn lemma_decimal_reads_back(n: nat)
    ensures
        decimal(n).len() >= 1,
        numeral(decimal(n), 10) == Some(n),
        forall|k: int|
            0 <= k < decimal(n).len() ==> 48 <= (#[trigger] decimal(n)[k]) as u32 <= 57,
    decreases n,
{
    if n < 10 {
        let s = decimal(n);
        assert(s.drop_last() =~= Seq::empty());
        assert(numeral(s.drop_last(), 10) == Some(0nat));
        assert(digit_value(s.last()) == Some(n));
    } else {
        lemma_decimal_reads_back(n / 10);
        assert(decimal(n).drop_last() =~= decimal(n / 10));
        assert(digit_value(decimal(n).last()) == Some(n % 10));
    }
}

/// Parsing the text of an endpoint gives the endpoint back. The host must not
/// be empty; and unless it contains a `:` (and is written in brackets), it
/// must not begin with white space, which parsing trims, nor stand in brackets
/// of its own, which parsing takes off.
pub proof fn law_endpoint_round_trip(e: EndpointView)
    requires
        e.host.len() > 0,
        e.host.contains(':') || (!is_space(e.host[0]) && unbracketed(e.host) == e.host),
    ensures
        endpoint_of(endpoint_text(e)) == Ok::<EndpointView, Seq<char>>(e),
{
    reveal_strlit("[");
    reveal_strlit("]:");
    reveal_strlit(":");
    let port = decimal(e.port as nat);
    let text = endpoint_text(e);
    let host_part = if e.host.contains(':') {
        seq!['['] + e.host + seq![']']
    } else {
        e.host
    };
    lemma_decimal_reads_back(e.port as nat);
    assert(text =~= host_part.push(':') + port);
    // Nothing is trimmed.
    let p = |c: char| is_space(c);
    assert(text[0] == host_part[0]);
    assert(!p(text[0]));
    assert(strip_start(text, p) == text);
    assert(text.last() == port.last());
    assert(!p(text.last()));
    assert(trimmed(text) == text);
    // The port is what stands behind the last colon.
    assert(!port.contains(':'));
    lemma_last_index_split(host_part, ':', port);
    let i = host_part.len() as int;
    assert(text.subrange(i + 1, text.len() as int) =~= port);
    assert(text.subrange(0, i) =~= host_part);
    assert(port[0] != '+');
    assert(port_of(port) == Some(e.port));
    assert(unbracketed(host_part) =~= e.host);
}

/// Every endpoint is equivalent to itself, and equivalence does not depend on
/// the order of the two.
pub proof fn law_equivalence_is_reflexive_and_symmetric(a: EndpointView, b: EndpointView)
    ensures
        same_node(a, a),
        same_node(a, b) == same_node(b, a),
{
}

/// Whether a host is a loopback spelling but for trailing dots.
pub open spec fn dotted_loopback(host: Seq<char>) -> bool {
    is_loopback(normalized(host)) && !is_loopback(bare(host))
}

proof fn lemma_loopback_has_no_final_dot(host: Seq<char>)
    requires
        is_loopback(bare(host)),
    ensures
        normalized(host) == bare(host),
{
    reveal_strlit("localhost");
    if is_loopback_ip(bare(host)) {
        lemma_loopback_ip_has_no_final_dot(bare(host));
    }
}

/// Endpoints that are equivalent to the same one are equivalent to each other.
/// A loopback spelling with a dot behind it is equivalent to the spelling
/// without, but not to other spellings: `localhost.`, `localhost` and
/// `127.0.0.1` are left out in that order.
pub proof fn law_equivalence_is_transitive(a: EndpointView, b: EndpointView, c: EndpointView)
    requires
        same_node(a, b),
        same_node(b, c),
        dotted_loopback(a.host) || dotted_loopback(c.host) ==> normalized(a.host) == normalized(
            c.host,
        ),
    ensures
        same_node(a, c),
{
    if is_loopback(bare(b.host)) {
        lemma_loopback_has_no_final_dot(b.host);
    }
}

proof fn lemma_strip_start_before(s: Seq<char>, x: char, y: char)
    requires
        x != y,
    ensures
        strip_start(s.push(y), is_char(x)) == strip_start(s, is_char(x)).push(y),
    decreases s.len(),
{
    if s.len() > 0 {
        assert(s.push(y)[0] == s[0]);
        if s[0] == x {
            assert(s.push(y).drop_first() =~= s.drop_first().push(y));
            lemma_strip_start_before(s.drop_first(), x, y);
        }
    } else {
        assert(s.push(y)[0] == y);
    }
}

/// A host in brackets is equivalent to the host without them, unless the host
/// itself has white space around it.
pub proof fn law_equivalence_ignores_brackets(host: Seq<char>, port: u16)
    requires
        trimmed(host) == host,
    ensures
        same_node(
            EndpointView { host, port },
            EndpointView { host: seq!['['] + host + seq![']'], port },
        ),
{
    let bracketed = seq!['['] + host + seq![']'];
    let space = |c: char| is_space(c);
    assert(bracketed[0] == '[' && !space(bracketed[0]));
    assert(strip_start(bracketed, space) == bracketed);
    assert(bracketed.last() == ']' && !space(bracketed.last()));
    assert(trimmed(bracketed) == bracketed);
    assert(bracketed.drop_first() =~= host.push(']'));
    lemma_strip_start_before(host, '[', ']');
    let inner = strip_start(host, is_char('['));
    assert(without_leading(bracketed, '[') == inner.push(']'));
    assert(inner.push(']').drop_last() =~= inner);
    assert(without_trailing(inner.push(']'), ']') == without_trailing(inner, ']'));
}

proof fn lemma_strip_start_lower(s: Seq<char>, p: spec_fn(char) -> bool)
    requires
        forall|c: char| #[trigger] p(lower(c)) == p(c),
    ensures
        strip_start(lower_case(s), p) == lower_case(strip_start(s, p)),
    decreases s.len(),
{
    if s.len() > 0 {
        assert(lower_case(s)[0] == lower(s[0]));
        lemma_strip_start_lower(s.drop_first(), p);
        assert(lower_case(s).drop_first() =~= lower_case(s.drop_first()));
    }
}

proof fn lemma_strip_end_lower(s: Seq<char>, p: spec_fn(char) -> bool)
    requires
        forall|c: char| #[trigger] p(lower(c)) == p(c),
    ensures
        strip_end(lower_case(s), p) == lower_case(strip_end(s, p)),
    decreases s.len(),
{
    if s.len() > 0 {
        assert(lower_case(s).last() == lower(s.last()));
        lemma_strip_end_lower(s.drop_last(), p);
        assert(lower_case(s).drop_last() =~= lower_case(s.drop_last()));
    }
}

proof fn lemma_lower_case_normalizes_alike(host: Seq<char>)
    ensures
        normalized(lower_case(host)) == normalized(host),
{
    let space = |c: char| is_space(c);
    let a = strip_start(host, space);
    let b = strip_end(a, space);
    let c = strip_start(b, is_char('['));
    let d = strip_end(c, is_char(']'));
    lemma_strip_start_lower(host, space);
    lemma_strip_end_lower(a, space);
    lemma_strip_start_lower(b, is_char('['));
    lemma_strip_end_lower(c, is_char(']'));
    assert(lower_case(lower_case(d)) =~= lower_case(d));
}

/// Endpoints on different ports are never equivalent; on one port, hosts that
/// differ only in the case of ASCII letters are.
pub proof fn law_equivalence_ignores_case(host: Seq<char>, port: u16, other_port: u16)
    ensures
        same_node(
            EndpointView { host, port },
            EndpointView { host: lower_case(host), port },
        ),
        other_port != port ==> !same_node(
            EndpointView { host, port },
            EndpointView { host, port: other_port },
        ),
{
    lemma_lower_case_normalizes_alike(host);
}

/// Low-level connection wrapper: the endpoint and protocol it was opened
/// with, and the RPC client that owns the transport.
#[derive(Debug)]
pub struct Connection<C> {
    endpoint: Endpoint,
    protocol: RpcProtocol,
    client: C,
}

impl<C> Connection<C> {
    /// The endpoint connected to.
    pub closed spec fn spec_endpoint(self) -> Endpoint {
        self.endpoint
    }

    /// The wire protocol in use.
    pub closed spec fn spec_protocol(self) -> RpcProtocol {
        self.protocol
    }

    /// The RPC client.
    pub closed spec fn spec_client(self) -> C {
        self.client
    }

    /// A connection over an RPC client that speaks `protocol` to `endpoint`.
    pub fn new(endpoint: Endpoint, protocol: RpcProtocol, client: C) -> (connection: Connection<C>)
        ensures
            connection.spec_endpoint() == endpoint,
            connection.spec_protocol() == protocol,
            connection.spec_client() == client,
    {
        Connection { endpoint, protocol, client }
    }

    /// Mutable access to the RPC client for issuing calls.
    pub fn client_mut(&mut self) -> (client: &mut C)
        ensures
            *client == old(self).spec_client(),
            final(self).spec_client() == *final(client),
            final(self).spec_endpoint() == old(self).spec_endpoint(),
            final(self).spec_protocol() == old(self).spec_protocol(),
    {
        &mut self.client
    }

    /// The endpoint connected to.
    pub fn endpoint(&self) -> (endpoint: &Endpoint)
        ensures
            *endpoint == self.spec_endpoint(),
    {
        &self.endpoint
    }

    /// The wire protocol this connection was opened with.
    pub fn protocol(&self) -> (protocol: RpcProtocol)
        ensures
            protocol == self.spec_protocol(),
    {
        self.protocol
    }
}

/// What to do with the next resolved address of an endpoint.
#[derive(Debug, Clone, Copy, PartialEq, Eq, Structural)]
pub enum ConnectAttempt {
    /// Try it, waiting at most this long.
    Try(Duration),
    /// The endpoint's time is used up: stop.
    TimedOut,
}

/// The connect budget of one endpoint: all its resolved addresses share one
/// deadline (a multi-address hostname must not multiply the configured bound).
#[derive(Debug)]
pub struct ConnectBudget {
    timeout: Duration,
    deadline: Option<Instant>,
    last_error: Option<thrift::Error>,
}

impl ConnectBudget {
    /// The whole budget.
    pub closed spec fn spec_timeout(self) -> Duration {
        self.timeout
    }

    /// When it is used up; never where there is no deadline.
    pub closed spec fn spec_deadline(self) -> Option<Instant> {
        self.deadline
    }

    /// What the last address failed with.
    pub closed spec fn spec_last_error(self) -> Option<thrift::Error> {
        self.last_error
    }

    /// A budget that begins to run now. A timeout beyond what the clock can
    /// name means "no bound".
    pub fn start(timeout: Duration, now: Instant) -> (budget: ConnectBudget)
        ensures
            budget.spec_timeout() == timeout,
            budget.spec_last_error() is None,
            match budget.spec_deadline() {
                Some(end) => end.nanos == now.nanos + timeout.nanos && end.nanos
                    <= MAX_INSTANT_NANOS,
                None => now.nanos + timeout.nanos > MAX_INSTANT_NANOS,
            },
    {
        ConnectBudget { timeout, deadline: now.checked_add(timeout), last_error: None }
    }

    /// What is left of the budget at `now` for the next address. Without a
    /// deadline each attempt may take the whole timeout.
    pub fn attempt(&self, now: Instant) -> (attempt: ConnectAttempt)
        ensures
            match self.spec_deadline() {
                None => attempt == ConnectAttempt::Try(self.spec_timeout()),
                Some(end) => if now.nanos >= end.nanos {
                    attempt == ConnectAttempt::TimedOut
                } else {
                    attempt matches ConnectAttempt::Try(left) && left.nanos == end.nanos
                        - now.nanos
                },
            },
    {
        match self.deadline {
            None => ConnectAttempt::Try(self.timeout),
            Some(end) => {
                let remaining = end.saturating_duration_since(now);
                if remaining.is_zero() {
                    ConnectAttempt::TimedOut
                } else {
                    ConnectAttempt::Try(remaining)
                }
            },
        }
    }

    /// Notes what an address failed with, or that time ran out.
    pub fn failed(&mut self, error: thrift::Error)
        ensures
            final(self).spec_last_error() == Some(error),
            final(self).spec_deadline() == old(self).spec_deadline(),
            final(self).spec_timeout() == old(self).spec_timeout(),
    {
        self.last_error = Some(error);
    }

    /// The error of an endpoint none of whose addresses could be connected to:
    /// the last failure, or that there was no address at all.
    pub fn give_up(self, endpoint: &Endpoint) -> (e: Error)
        ensures
            match self.spec_last_error() {
                Some(error) => e@ == ErrorView::Thrift(error),
                None => e@ == ErrorView::Client(
                    "could not resolve endpoint "@ + endpoint_text(endpoint@),
                ),
            },
    {
        match self.last_error {
            Some(error) => Error::Thrift(error),
            None => {
                let mut m = "could not resolve endpoint ".to_owned();
                m.append(endpoint.to_string().as_str());
                Error::Client(m)
            },
        }
    }
}

/// The message of an endpoint whose connect budget is used up.
pub fn connect_timed_out(endpoint: &Endpoint) -> (message: String)
    ensures
        message@ == "connect to "@ + endpoint_text(endpoint@) + " timed out"@,
{
    let mut m = "connect to ".to_owned();
    m.append(endpoint.to_string().as_str());
    m.append(" timed out");
    m
}

/// The bound to set on socket reads and writes. A zero duration would select
/// non-blocking mode on some platforms; it counts as "no timeout" instead.
pub fn socket_bound(socket_timeout: Option<Duration>) -> (bound: Option<Duration>)
    ensures
        bound == match socket_timeout {
            Some(t) => if t.nanos == 0 {
                None
            } else {
                Some(t)
            },
            None => None,
        },
{
    match socket_timeout {
        Some(t) => {
            if t.is_zero() {
                None
            } else {
                Some(t)
            }
        },
        None => None,
    }
}

} // verus!
