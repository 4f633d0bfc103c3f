//! PEM files whose reading broke off.

use iotdb_client::connection::pem_break::{
    certificates_of_broken, key_of_broken, progress, report_broken_certificates, take_broken_key,
    Progress,
};
use iotdb_client::Error;

fn section(label: &str, body: &str) -> String {
    format!("-----BEGIN {label}-----\n{body}\n-----END {label}-----\n")
}

fn key_label() -> String {
    format!("{} KEY", "PRIVATE")
}

fn certificates(text: &str) -> String {
    match certificates_of_broken(&text.as_bytes().to_vec(), "stalled".into(), "CA certificate", "/f")
    {
        Err(Error::Tls(m)) => m,
        other => panic!("unexpected outcome: {other:?}"),
    }
}

fn key(text: &str) -> Result<Vec<u8>, String> {
    match key_of_broken(&text.as_bytes().to_vec(), "stalled".into()) {
        Ok(key) => Ok(key),
        Err(Error::Tls(m)) => Err(m),
        other => panic!("unexpected outcome: {other:?}"),
    }
}

const STALLED_CERTIFICATES: &str = "cannot parse CA certificate: stalled";
const STALLED_KEY: &str = "cannot parse client key: stalled";

#[test]
fn a_break_is_reported_where_nothing_is_wrong_before_it() {
    let good = section("CERTIFICATE", "AQID");
    assert_eq!(certificates(""), STALLED_CERTIFICATES);
    assert_eq!(certificates(&good), STALLED_CERTIFICATES);
    assert_eq!(certificates(&format!("{good}text")), STALLED_CERTIFICATES);
    // In the midst of a section, and of its first line.
    assert_eq!(
        certificates(&format!("{good}-----BEGIN CERTIFICATE-----\nAQ")),
        STALLED_CERTIFICATES
    );
    assert_eq!(certificates(&format!("{good}-----BEGIN CERTI")), STALLED_CERTIFICATES);
}

#[test]
fn an_error_before_a_break_comes_first() {
    let good = section("CERTIFICATE", "AQID");
    let bad = section("CERTIFICATE", "A");
    for text in [
        bad.clone(),
        format!("{good}{bad}"),
        format!("{good}{bad}-----BEGIN CERTIFICATE-----\nAQ"),
        format!("{good}-----BEGIN CERTIFICATE\nAQID\n"),
    ] {
        let m = certificates(&text);
        assert!(m.starts_with("cannot parse CA certificate: "), "{m}");
        assert_ne!(m, STALLED_CERTIFICATES, "{text}");
        assert!(!m.contains("section end"), "{m}");
    }
    let m = key(&format!("{bad}{}", section(&key_label(), "BAUG"))).unwrap_err();
    assert!(m.starts_with("cannot parse client key: ") && m != STALLED_KEY, "{m}");
}

#[test]
fn the_first_key_counts_once_its_last_line_is_complete() {
    let text = section(&key_label(), "BAUG");
    assert_eq!(key(&text).unwrap(), [4, 5, 6]);
    assert_eq!(key(&format!("{}{text}junk", section("CERTIFICATE", "AQID"))).unwrap(), [4, 5, 6]);
    // What is wrong behind it does not matter.
    assert_eq!(
        key(&format!("{text}{}", section("CERTIFICATE", "A"))).unwrap(),
        [4, 5, 6]
    );
    // Cut right behind the end marker.
    assert_eq!(key(text.trim_end()).unwrap_err(), STALLED_KEY);
    assert_eq!(key(&section("CERTIFICATE", "AQID")).unwrap_err(), STALLED_KEY);
    // A carriage return ends a line as well.
    assert_eq!(key(&text.replace('\n', "\r")).unwrap(), [4, 5, 6]);
}

#[test]
fn progress_goes_from_section_to_section() {
    assert_eq!(progress(Ok(Some(3)), 2, 10), Progress::At(7));
    assert_eq!(progress(Ok(Some(0)), 2, 10), Progress::At(10));
    assert_eq!(progress(Ok(None), 2, 10), Progress::Stopped(2));
    assert_eq!(progress(Err(true), 2, 10), Progress::Stopped(2));
    assert_eq!(progress(Err(false), 2, 10), Progress::Stopped(10));
}

#[test]
fn findings_before_a_break_are_weighed() {
    assert!(matches!(
        report_broken_certificates(Ok(vec![vec![1]]), "stalled".into(), "CA certificate", "/f"),
        Err(Error::Tls(m)) if m == STALLED_CERTIFICATES
    ));
    assert!(matches!(
        report_broken_certificates(Err("bad".into()), "stalled".into(), "CA certificate", "/f"),
        Err(Error::Tls(m)) if m == "cannot parse CA certificate: bad"
    ));
    assert_eq!(take_broken_key(Ok(Some(vec![1])), "stalled".into()).unwrap(), [1]);
    assert!(matches!(
        take_broken_key(Ok(None), "stalled".into()),
        Err(Error::Tls(m)) if m == STALLED_KEY
    ));
    assert!(matches!(
        take_broken_key(Err("bad".into()), "stalled".into()),
        Err(Error::Tls(m)) if m == "cannot parse client key: bad"
    ));
}
