//! Endpoints, connection settings and TLS.

use iotdb_client::connection::tls::{
    check_certificates, check_client_key, check_server_name, handshake_error, handshake_outcome,
    load_certificates, load_client_key, unreadable_file, ClientIdentity,
};
use iotdb_client::connection::{
    connect_timed_out, socket_bound, ConnectAttempt, ConnectBudget, Connection, ConnectionOptions,
    RpcProtocol, TlsOptions,
};
use iotdb_client::time::{Duration, Instant};
use iotdb_client::{Endpoint, Error};

#[test]
fn parse_ipv4() {
    let ep = Endpoint::parse("127.0.0.1:6667").unwrap();
    assert_eq!(ep, Endpoint::new("127.0.0.1", 6667));
}

#[test]
fn parse_hostname() {
    let ep = Endpoint::parse("iotdb.example.com:1234").unwrap();
    assert_eq!(ep, Endpoint::new("iotdb.example.com", 1234));
}

#[test]
fn parse_ipv6_bracketed() {
    let ep = Endpoint::parse("[::1]:6667").unwrap();
    assert_eq!(ep, Endpoint::new("::1", 6667));

    let ep = Endpoint::parse("[2001:db8::1]:6668").unwrap();
    assert_eq!(ep, Endpoint::new("2001:db8::1", 6668));
}

#[test]
fn parse_trims_whitespace() {
    let ep = Endpoint::parse("  localhost:6667 ").unwrap();
    assert_eq!(ep, Endpoint::new("localhost", 6667));
}

#[test]
fn parse_no_port_is_error() {
    assert!(Endpoint::parse("localhost").is_err());
}

#[test]
fn parse_bad_port_is_error() {
    assert!(Endpoint::parse("localhost:abc").is_err());
    assert!(Endpoint::parse("localhost:99999").is_err());
    assert!(Endpoint::parse("localhost:").is_err());
}

#[test]
fn parse_empty_host_is_error() {
    assert!(Endpoint::parse(":6667").is_err());
    assert!(Endpoint::parse("[]:6667").is_err());
}

#[test]
fn display_roundtrip() {
    assert_eq!(
        Endpoint::new("localhost", 6667).to_string(),
        "localhost:6667"
    );
    assert_eq!(Endpoint::new("::1", 6667).to_string(), "[::1]:6667");
    assert_eq!(
        Endpoint::parse(&Endpoint::new("::1", 6667).to_string()).unwrap(),
        Endpoint::new("::1", 6667)
    );
}

#[test]
fn endpoint_equivalent_normalizes_and_matches_loopback() {
    assert!(Endpoint::new("LOCALHOST", 6667).equivalent(&Endpoint::new("localhost", 6667)));
    assert!(Endpoint::new("localhost", 6667).equivalent(&Endpoint::new("127.0.0.1", 6667)));
    assert!(Endpoint::new("127.0.0.1", 6667).equivalent(&Endpoint::new("::1", 6667)));
    assert!(Endpoint::new("[::1]", 6667).equivalent(&Endpoint::new("::1", 6667)));
    assert!(!Endpoint::new("localhost", 6667).equivalent(&Endpoint::new("localhost", 6668)));
    assert!(
        !Endpoint::new("localhost", 6667).equivalent(&Endpoint::new("iotdb.example.com", 6667))
    );
}

#[test]
fn default_options_are_binary_no_tls() {
    let options = ConnectionOptions::default();
    assert_eq!(options.connect_timeout, Duration::from_secs(10));
    assert_eq!(options.socket_timeout, Some(Duration::from_secs(60)));
    assert_eq!(options.protocol, RpcProtocol::Binary);
    assert!(options.tls.is_none());
    assert_eq!(RpcProtocol::default(), RpcProtocol::Binary);
}

fn parse_error(url: &str) -> String {
    match Endpoint::parse(url) {
        Err(Error::Client(m)) => m,
        other => panic!("expected client error, got {other:?}"),
    }
}

#[test]
fn parse_complaints_quote_the_trimmed_url() {
    assert_eq!(
        parse_error(" localhost\t"),
        "invalid node url 'localhost': expected host:port"
    );
    assert_eq!(
        parse_error("a:b:70000"),
        "invalid node url 'a:b:70000': bad port '70000'"
    );
    assert_eq!(parse_error("h:"), "invalid node url 'h:': bad port ''");
    assert_eq!(parse_error("[]:1"), "invalid node url '[]:1': empty host");
    // Unicode white space is trimmed too.
    assert_eq!(
        Endpoint::parse("\u{2003}\u{3000}h:1\u{85}").unwrap(),
        Endpoint::new("h", 1)
    );
}

#[test]
fn parsing_agrees_with_str_methods() {
    // The same rules, written with the methods of `str`.
    fn expected(s: &str) -> Option<(String, u16)> {
        let s = s.trim();
        let idx = s.rfind(':')?;
        let port: u16 = s[idx + 1..].parse().ok()?;
        let part = &s[..idx];
        let host = part
            .strip_prefix('[')
            .and_then(|h| h.strip_suffix(']'))
            .unwrap_or(part);
        if host.is_empty() {
            None
        } else {
            Some((host.to_string(), port))
        }
    }
    for url in [
        "h:1", "h:+1", "h:-1", "h:+", "h:++1", "h:00006667", "h:65535", "h:65536",
        "h:000000000000000000001", "[h:1", "h]:1", "[:1", "[]:1", "[[h]]:1", "[ h ]:1", "a b:1",
        "h: 1", "::1:6667", ":", "", " ", "h:1:", "é:1", "h:١", "[a]b]:2", "h\u{a0}:1",
    ] {
        let got = Endpoint::parse(url).ok().map(|e| (e.host, e.port));
        assert_eq!(got, expected(url), "{url:?}");
    }
}

#[test]
fn loopback_spellings_are_equivalent() {
    let home = Endpoint::new("localhost", 1);
    for host in [
        "localhost", "localhost ", "LocalHost", "127.0.0.1", "127.255.255.255", "::1", "::0001",
        "0:0:0:0:0:0:0:1", "::0:1", "0::1", "0:0::0:0:1", "::0.0.0.1", "0:0:0:0:0:0:0.0.0.1",
        "0:0:0:0:0:0::1", "0::0.0.0.1", "00:0000::1", "LOCALHOST", "localhost.", "localhost..", "[localhost]",
        "[::1]", " [::1] ", "[0:0:0:0:0:0:0:1]", "127.0.0.1 ", " 127.0.0.1 ",
        "[127.9.9.9]",
    ] {
        assert!(home.equivalent(&Endpoint::new(host, 1)), "{host:?}");
        assert!(Endpoint::new(host, 1).equivalent(&home), "{host:?}");
    }
    for host in [
        "127.0.0.01", "127.0.0", "127.0.0.1.1", "127.0.0.256", "126.0.0.1", "0127.0.0.1",
        "127.0.0.", "127.0.0.1.", ".127.0.0.1", "1270.0.0.1", "127 .0.0.1", "::00001", "0:0:0:0:0:0:0:0:1",
        "::", "1::", "::1:0", ":::1", "::1::", "::ffff:127.0.0.1", "0:0:0:0:0:0:0:0.0.0.1",
        "::G", "::1%eth0", "", "0.0.0.1::", "::0.0.0.1:0", "0:0:0:0:0:0:0::1",
        "0:0:0:0:0:0::0.0.0.1", "::0.0.0.01", "[::2]",
    ] {
        assert!(!home.equivalent(&Endpoint::new(host, 1)), "{host:?}");
    }
    // Every loopback spelling is equivalent to every other.
    for (a, b) in [
        ("[::1]", "127.0.0.1"), ("LOCALHOST", "::1"), ("[localhost]", "127.0.0.1"),
        (" 127.0.0.1 ", "[::1]"), ("LocalHost", "127.1.2.3"),
    ] {
        assert!(Endpoint::new(a, 6667).equivalent(&Endpoint::new(b, 6667)), "{a:?} {b:?}");
        assert!(!Endpoint::new(a, 6667).equivalent(&Endpoint::new(b, 6668)), "{a:?} {b:?}");
    }
    // A dot behind a spelling keeps it from being another's.
    assert!(!Endpoint::new("localhost.", 1).equivalent(&Endpoint::new("127.0.0.1", 1)));
    assert!(Endpoint::new("127.0.0.1.", 1).equivalent(&Endpoint::new("127.0.0.1", 1)));
    assert!(Endpoint::new(" [[FE80::1]] ", 1).equivalent(&Endpoint::new("fe80::1.", 1)));
    assert!(Endpoint::new("DB1.Example.", 1).equivalent(&Endpoint::new("db1.example", 1)));
    assert!(!Endpoint::new("İ", 1).equivalent(&Endpoint::new("i", 1)));
}

#[test]
fn connections_remember_what_they_were_opened_with() {
    let mut c = Connection::new(Endpoint::new("h", 1), RpcProtocol::Compact, 7u32);
    assert_eq!(c.endpoint(), &Endpoint::new("h", 1));
    assert_eq!(c.protocol(), RpcProtocol::Compact);
    *c.client_mut() += 1;
    assert_eq!(*c.client_mut(), 8);
}

#[test]
fn connect_attempts_share_one_deadline() {
    let timeout = Duration::from_secs(10);
    let start = Instant { nanos: 1_000 };
    let budget = ConnectBudget::start(timeout, start);
    assert_eq!(budget.attempt(start), ConnectAttempt::Try(timeout));
    let late = start.checked_add(Duration::from_secs(7)).unwrap();
    assert_eq!(
        budget.attempt(late),
        ConnectAttempt::Try(Duration::from_secs(3))
    );
    let end = start.checked_add(timeout).unwrap();
    assert_eq!(budget.attempt(end), ConnectAttempt::TimedOut);
    // An endless timeout has no deadline.
    let endless = ConnectBudget::start(Duration::max(), start);
    assert_eq!(
        endless.attempt(late),
        ConnectAttempt::Try(Duration::max())
    );
}

#[test]
fn connect_failures_have_names() {
    let e = Endpoint::new("::1", 6667);
    let start = Instant { nanos: 0 };
    assert_eq!(connect_timed_out(&e), "connect to [::1]:6667 timed out");
    let unresolved = ConnectBudget::start(Duration::from_secs(1), start);
    assert!(matches!(
        unresolved.give_up(&e),
        Error::Client(m) if m == "could not resolve endpoint [::1]:6667"
    ));
    // The last failure is the one reported.
    let mut refused = ConnectBudget::start(Duration::from_secs(1), start);
    refused.failed(thrift::Error::from(std::io::Error::new(
        std::io::ErrorKind::ConnectionReset,
        "reset",
    )));
    refused.failed(thrift::Error::from(std::io::Error::new(
        std::io::ErrorKind::ConnectionRefused,
        "refused",
    )));
    match refused.give_up(&e) {
        Error::Thrift(thrift::Error::Transport(t)) => {
            assert_eq!(t.kind, thrift::TransportErrorKind::NotOpen);
            assert_eq!(t.message, "refused");
        }
        other => panic!("unexpected error: {other:?}"),
    }
}

#[test]
fn handshakes_end_or_are_reported() {
    assert!(handshake_outcome(false).is_ok());
    assert!(matches!(
        handshake_outcome(true),
        Err(Error::Tls(m)) if m == "TLS handshake did not complete"
    ));
}

#[test]
fn zero_socket_timeouts_do_not_bound() {
    assert_eq!(socket_bound(None), None);
    assert_eq!(socket_bound(Some(Duration::zero())), None);
    assert_eq!(
        socket_bound(Some(Duration::from_millis(300))),
        Some(Duration::from_millis(300))
    );
}

fn pem(label: &str, body: &str) -> String {
    format!("-----BEGIN {label}-----\n{body}\n-----END {label}-----\n")
}

fn key_label() -> String {
    format!("{} KEY", "PRIVATE")
}

#[test]
fn certificates_are_read_from_pem() {
    let text = format!(
        "noise\n{}{}{}",
        pem("CERTIFICATE", "AQID"),
        pem(&key_label(), "BAUG"),
        pem("CERTIFICATE", "/w==")
    );
    assert_eq!(
        load_certificates(text.as_bytes(), "CA certificate", "/ca.pem").unwrap(),
        vec![vec![1u8, 2, 3], vec![0xFF]]
    );
    assert!(matches!(
        load_certificates(b"nothing here", "CA certificate", "/ca.pem"),
        Err(Error::Tls(m)) if m == "CA certificate /ca.pem contains no PEM certificates"
    ));
    assert!(matches!(
        load_certificates(pem("CERTIFICATE", "A").as_bytes(), "CA certificate", "/ca.pem"),
        Err(Error::Tls(m)) if m.starts_with("cannot parse CA certificate: ")
    ));
    assert!(matches!(
        check_certificates(Err("oops".into()), "client certificate", "/c"),
        Err(Error::Tls(m)) if m == "cannot parse client certificate: oops"
    ));
    assert_eq!(
        check_certificates(Ok(vec![vec![9]]), "x", "y").unwrap(),
        vec![vec![9u8]]
    );
}

#[test]
fn client_keys_are_read_from_pem() {
    let text = format!(
        "{}{}{}",
        pem("CERTIFICATE", "AQID"),
        pem(&key_label(), "BAUG"),
        pem(&key_label(), "CQ==")
    );
    assert_eq!(load_client_key(text.as_bytes()).unwrap(), vec![4u8, 5, 6]);
    // A certificate is not a key.
    assert!(matches!(
        load_client_key(pem("CERTIFICATE", "AQID").as_bytes()),
        Err(Error::Tls(m)) if m == "client key is not a PEM PKCS#8 private key"
    ));
    assert!(matches!(
        load_client_key(pem(&key_label(), "A").as_bytes()),
        Err(Error::Tls(m)) if m.starts_with("cannot parse client key: ")
    ));
    assert!(matches!(
        check_client_key(Err("oops".into())),
        Err(Error::Tls(m)) if m == "cannot parse client key: oops"
    ));
    assert!(check_client_key(Ok(None)).is_err());
    assert_eq!(check_client_key(Ok(Some(vec![1]))).unwrap(), vec![1u8]);
}

#[test]
fn unreadable_files_are_client_errors() {
    assert!(matches!(
        unreadable_file("client key", "/missing.pem", "not found"),
        Error::Client(m) if m == "cannot read client key /missing.pem: not found"
    ));
}

#[test]
fn client_identity_is_whole_or_absent() {
    let mut tls = TlsOptions::default();
    assert!(matches!(tls.client_identity(), Ok(ClientIdentity::Anonymous)));
    tls.client_cert_path = Some("/c.pem".into());
    assert!(matches!(
        tls.client_identity(),
        Err(Error::Client(m)) if m.contains("mutual TLS")
    ));
    tls.client_key_path = Some("/k.pem".into());
    match tls.client_identity() {
        Ok(ClientIdentity::Files { cert_path, key_path }) => {
            assert_eq!(cert_path, "/c.pem");
            assert_eq!(key_path, "/k.pem");
        }
        other => panic!("expected an identity, got {other:?}"),
    }
    tls.client_cert_path = None;
    assert!(tls.client_identity().is_err());
}

#[test]
fn server_names_come_from_the_endpoint_or_the_override() {
    let mut tls = TlsOptions::default();
    let endpoint = Endpoint::new("db.example.com", 6667);
    assert_eq!(tls.server_name(&endpoint).unwrap(), "db.example.com");
    // An IPv6 address is written back in its short form.
    assert_eq!(
        tls.server_name(&Endpoint::new("0:0:0:0:0:0:0:1", 6667)).unwrap(),
        "::1"
    );
    tls.domain_override = Some("iotdb.internal".into());
    assert_eq!(tls.server_name(&endpoint).unwrap(), "iotdb.internal");
    tls.domain_override = Some("not a name".into());
    assert!(matches!(
        tls.server_name(&endpoint),
        Err(Error::Client(m)) if m.starts_with("invalid TLS server name 'not a name': ")
            && m.len() > "invalid TLS server name 'not a name': ".len()
    ));
    assert!(matches!(
        check_server_name(Err("oops".into()), "d"),
        Err(Error::Client(m)) if m == "invalid TLS server name 'd': oops"
    ));
    assert_eq!(check_server_name(Ok("n".into()), "d").unwrap(), "n");
}

#[test]
fn stalled_handshakes_name_the_bound() {
    let bound = Some(Duration::from_millis(300));
    assert!(matches!(
        handshake_error(true, "would block", bound),
        Error::Tls(m) if m == "TLS handshake timed out (300ms)"
    ));
    assert!(matches!(
        handshake_error(true, "would block", Some(Duration::from_millis(2_500))),
        Error::Tls(m) if m == "TLS handshake timed out (2.5s)"
    ));
    assert!(matches!(
        handshake_error(true, "would block", None),
        Error::Tls(m) if m == "TLS handshake timed out (no socket timeout)"
    ));
    assert!(matches!(
        handshake_error(false, "bad certificate", bound),
        Error::Tls(m) if m == "bad certificate"
    ));
}
