//! The steps of setting up a TLS client.

use iotdb_client::connection::tls_setup::{
    append_all_anchors, certificates_of_file, keep_good_anchors, key_of_file, ClientAuth, PemFile,
    TlsSetup, TlsStep, TrustAnchor,
};
use iotdb_client::connection::TlsOptions;
use iotdb_client::Error;

/// The smallest certificate that can be a root: version 3, the subject
/// `31 00` and the public key `03 01 00`.
const ROOT: [u8; 32] = [
    0x30, 0x1E, 0x30, 0x17, 0xA0, 0x03, 0x02, 0x01, 0x02, 0x02, 0x01, 0x01, 0x30, 0x00, 0x30, 0x00,
    0x30, 0x00, 0x30, 0x02, 0x31, 0x00, 0x30, 0x03, 0x03, 0x01, 0x00, 0x30, 0x00, 0x03, 0x01, 0x00,
];

const ROOT_BASE64: &str = "MB4wF6ADAgECAgEBMAAwADAAMAIxADADAwEAMAADAQA=";

fn pem(label: &str, body: &str) -> PemFile {
    PemFile::Read(
        format!("-----BEGIN {label}-----\n{body}\n-----END {label}-----\n").into_bytes(),
    )
}

fn key_pem(body: &str) -> PemFile {
    pem(&format!("{} KEY", "PRIVATE"), body)
}

/// The same file, reading which broke off at its end.
fn broken(file: PemFile) -> PemFile {
    match file {
        PemFile::Read(read) => PemFile::Broken {
            read,
            detail: "is a directory".into(),
        },
        other => other,
    }
}

fn anchor(subject: u8) -> TrustAnchor {
    TrustAnchor {
        subject: vec![subject],
        public_key_info: vec![],
        name_constraints: None,
    }
}

#[test]
fn a_plain_setup_asks_for_the_platform_roots_only() {
    let mut setup = TlsSetup::begin(TlsOptions::default());
    assert!(matches!(setup.next_step(), Ok(TlsStep::LoadNativeRoots)));
    // One root, and two certificates that are none.
    let native = vec![vec![1u8, 2, 3], ROOT.to_vec(), vec![]];
    let trusted = setup.trusted_roots(&native).unwrap();
    assert_eq!(trusted.ignored, 2);
    assert_eq!(trusted.anchors.len(), 1);
    assert_eq!(trusted.anchors[0].subject, vec![0x31, 0x00]);
    assert_eq!(trusted.anchors[0].public_key_info, vec![0x03, 0x01, 0x00]);
    assert_eq!(trusted.anchors[0].name_constraints, None);
    assert!(matches!(setup.next_step(), Ok(TlsStep::Finish)));
    assert!(matches!(setup.finish(), ClientAuth::Anonymous));
}

#[test]
fn a_full_setup_reads_three_files_in_order() {
    let mut setup = TlsSetup::begin(TlsOptions {
        ca_cert_path: Some("/ca.pem".into()),
        client_cert_path: Some("/client.crt".into()),
        client_key_path: Some("/client.key".into()),
        ..TlsOptions::default()
    });
    assert!(matches!(setup.next_step(), Ok(TlsStep::Read(p)) if p == "/ca.pem"));
    setup.supply_file(pem("CERTIFICATE", ROOT_BASE64)).unwrap();
    assert!(matches!(setup.next_step(), Ok(TlsStep::LoadNativeRoots)));
    let trusted = setup.trusted_roots(&vec![]).unwrap();
    assert_eq!(trusted.ignored, 0);
    assert_eq!(trusted.anchors.len(), 1);
    assert!(matches!(setup.next_step(), Ok(TlsStep::Read(p)) if p == "/client.crt"));
    setup.supply_file(pem("CERTIFICATE", "AQID")).unwrap();
    assert!(matches!(setup.next_step(), Ok(TlsStep::Read(p)) if p == "/client.key"));
    setup.supply_file(key_pem("BAUG")).unwrap();
    assert!(matches!(setup.next_step(), Ok(TlsStep::Finish)));
    match setup.finish() {
        ClientAuth::Certificate { chain, key } => {
            assert_eq!(chain, vec![vec![1u8, 2, 3]]);
            assert_eq!(key, vec![4u8, 5, 6]);
        }
        ClientAuth::Anonymous => panic!("the client has a certificate"),
    }
}

#[test]
fn accepting_invalid_certificates_skips_the_roots() {
    let mut setup = TlsSetup::begin(TlsOptions {
        ca_cert_path: Some("/ca.pem".into()),
        accept_invalid_certs: true,
        ..TlsOptions::default()
    });
    // The CA file must still hold certificates.
    assert!(matches!(setup.next_step(), Ok(TlsStep::Read(_))));
    assert!(matches!(
        setup.supply_file(PemFile::Read(vec![])),
        Err(Error::Tls(m)) if m == "CA certificate /ca.pem contains no PEM certificates"
    ));
    setup.supply_file(pem("CERTIFICATE", "AQID")).unwrap();
    assert!(matches!(setup.next_step(), Ok(TlsStep::TrustAnyone)));
    assert!(matches!(setup.next_step(), Ok(TlsStep::Finish)));
}

#[test]
fn an_unusable_ca_certificate_is_an_error() {
    let mut setup = TlsSetup::begin(TlsOptions {
        ca_cert_path: Some("/ca.pem".into()),
        ..TlsOptions::default()
    });
    setup.supply_file(pem("CERTIFICATE", "AQID")).unwrap();
    assert!(matches!(
        setup.trusted_roots(&vec![ROOT.to_vec()]),
        Err(Error::Tls(m))
            if m == "cannot add CA certificate: invalid peer certificate: BadEncoding"
    ));
}

#[test]
fn half_an_identity_is_an_error() {
    let mut setup = TlsSetup::begin(TlsOptions {
        accept_invalid_certs: true,
        client_key_path: Some("/client.key".into()),
        ..TlsOptions::default()
    });
    assert!(matches!(
        setup.next_step(),
        Err(Error::Client(m))
            if m == "mutual TLS requires both client_cert_path and client_key_path"
    ));
    // Not even the CA file is read before.
    let mut setup = TlsSetup::begin(TlsOptions {
        ca_cert_path: Some("/ca.pem".into()),
        client_cert_path: Some("/client.crt".into()),
        ..TlsOptions::default()
    });
    assert!(matches!(setup.next_step(), Err(Error::Client(_))));
}

#[test]
fn files_that_cannot_be_read_are_reported() {
    assert!(matches!(
        certificates_of_file(PemFile::Unopened("gone".into()), "CA certificate", "/ca.pem"),
        Err(Error::Client(m)) if m == "cannot read CA certificate /ca.pem: gone"
    ));
    assert!(matches!(
        certificates_of_file(broken(pem("CERTIFICATE", "AQID")), "CA certificate", "/"),
        Err(Error::Tls(m)) if m == "cannot parse CA certificate: is a directory"
    ));
    assert!(matches!(
        key_of_file(PemFile::Unopened("gone".into()), "/client.key"),
        Err(Error::Client(m)) if m == "cannot read client key /client.key: gone"
    ));
    assert!(matches!(
        key_of_file(broken(pem("CERTIFICATE", "AQID")), "/"),
        Err(Error::Tls(m)) if m == "cannot parse client key: is a directory"
    ));
    assert!(matches!(
        key_of_file(pem("CERTIFICATE", "AQID"), "/client.key"),
        Err(Error::Tls(m)) if m == "client key is not a PEM PKCS#8 private key"
    ));
    assert_eq!(key_of_file(key_pem("BAUG"), "/client.key").unwrap(), [4, 5, 6]);
    // A key that was read before the file broke off counts.
    assert_eq!(key_of_file(broken(key_pem("BAUG")), "/client.key").unwrap(), [4, 5, 6]);
}

#[test]
fn platform_roots_are_kept_in_order() {
    let (kept, ignored) = keep_good_anchors(vec![
        Ok(anchor(1)),
        Err("bad".into()),
        Ok(anchor(2)),
    ]);
    assert_eq!(ignored, 1);
    let subjects: Vec<u8> = kept.iter().map(|a| a.subject[0]).collect();
    assert_eq!(subjects, [1, 2]);
}

#[test]
fn extra_roots_must_all_be_usable() {
    let mut anchors = vec![anchor(1)];
    append_all_anchors(&mut anchors, vec![Ok(anchor(2)), Ok(anchor(3))]).unwrap();
    let subjects: Vec<u8> = anchors.iter().map(|a| a.subject[0]).collect();
    assert_eq!(subjects, [1, 2, 3]);
    // The first complaint is the one reported.
    assert!(matches!(
        append_all_anchors(
            &mut anchors,
            vec![Ok(anchor(4)), Err("first".into()), Err("second".into())],
        ),
        Err(Error::Tls(m)) if m == "cannot add CA certificate: first"
    ));
}

/// Performs a setup against a small file system.
fn set_up(options: TlsOptions, files: &[(&str, PemFile)]) -> Result<ClientAuth, Error> {
    let mut setup = TlsSetup::begin(options);
    loop {
        match setup.next_step()? {
            TlsStep::Read(path) => {
                let file = files.iter().find(|(name, _)| *name == path).map(|(_, file)| file);
                setup.supply_file(match file {
                    Some(PemFile::Read(bytes)) => PemFile::Read(bytes.clone()),
                    _ => PemFile::Unopened("No such file or directory (os error 2)".into()),
                })?;
            }
            TlsStep::LoadNativeRoots => {
                setup.trusted_roots(&vec![ROOT.to_vec()])?;
            }
            TlsStep::TrustAnyone => {}
            TlsStep::Finish => return Ok(setup.finish()),
        }
    }
}

fn fixtures() -> Vec<(&'static str, PemFile)> {
    vec![
        ("cert.pem", pem("CERTIFICATE", ROOT_BASE64)),
        ("client-cert.pem", pem("CERTIFICATE", "AQID")),
        ("client-key.pem", key_pem("BAUG")),
    ]
}

/// Setting only one of the client cert/key pair is a config error
/// caught before any I/O.
#[test]
fn tls_client_identity_requires_both_paths() {
    for (cert, key) in [
        (Some("client-cert.pem".to_string()), None),
        (None, Some("client-key.pem".to_string())),
    ] {
        let options = TlsOptions {
            accept_invalid_certs: true,
            client_cert_path: cert.clone(),
            client_key_path: key.clone(),
            ..Default::default()
        };
        let err = match set_up(options, &fixtures()) {
            Ok(_) => panic!("half a client identity must fail"),
            Err(e) => e,
        };
        assert!(
            matches!(&err, Error::Client(m) if m.contains("mutual TLS")),
            "cert={cert:?} key={key:?}: got {err:?}"
        );
    }
}

/// A missing client key file is a clear client error before any connect.
#[test]
fn tls_missing_client_key_file_is_client_error() {
    let options = TlsOptions {
        accept_invalid_certs: true,
        client_cert_path: Some("client-cert.pem".into()),
        client_key_path: Some("does-not-exist-key.pem".into()),
        ..Default::default()
    };
    let err = match set_up(options, &fixtures()) {
        Ok(_) => panic!("missing client key must fail"),
        Err(e) => e,
    };
    assert!(
        matches!(&err, Error::Client(m) if m.contains("cannot read client key")),
        "got {err:?}"
    );
}

/// A file that is not a PKCS#8 key (here: the certificate itself) fails
/// identity construction with a TLS error, not a panic.
#[test]
fn tls_corrupt_client_key_is_tls_error() {
    let options = TlsOptions {
        accept_invalid_certs: true,
        client_cert_path: Some("client-cert.pem".into()),
        client_key_path: Some("client-cert.pem".into()), // not a key
        ..Default::default()
    };
    let err = match set_up(options, &fixtures()) {
        Ok(_) => panic!("a certificate is not a private key"),
        Err(e) => e,
    };
    assert!(matches!(err, Error::Tls(_)), "got {err:?}");
}

/// A missing CA file is a clear client error before any connect.
#[test]
fn tls_missing_ca_file_is_client_error() {
    let options = TlsOptions {
        ca_cert_path: Some("does-not-exist.pem".into()),
        ..Default::default()
    };
    let err = match set_up(options, &fixtures()) {
        Ok(_) => panic!("missing CA file must fail"),
        Err(e) => e,
    };
    assert!(
        matches!(&err, Error::Client(m) if m.contains("cannot read CA certificate")),
        "got {err:?}"
    );
}

#[test]
fn a_complete_setup_succeeds() {
    let options = TlsOptions {
        ca_cert_path: Some("cert.pem".into()),
        client_cert_path: Some("client-cert.pem".into()),
        client_key_path: Some("client-key.pem".into()),
        ..Default::default()
    };
    assert!(matches!(
        set_up(options, &fixtures()),
        Ok(ClientAuth::Certificate { .. })
    ));
}
