//! TLS settings and what is read from them: certificates, the client's
//! identity and the server name.

use vstd::prelude::*;
use vstd::string::*;

use super::{Endpoint, EndpointView};
use crate::error::{Error, ErrorView, Result};
use crate::time::{shown_duration, Duration};

verus! {

/// TLS settings for a [`Connection`](super::Connection).
#[derive(Debug)]
pub struct TlsOptions {
    /// PEM certificate added as a trusted root (e.g. a private CA or the
    /// server's self-signed certificate), in addition to the platform roots.
    pub ca_cert_path: Option<String>,
    /// Skip certificate-chain and hostname verification (self-signed test
    /// certs). TLS handshake signatures are still verified.
    /// **Dangerous** outside tests. Default `false`.
    pub accept_invalid_certs: bool,
    /// Hostname used for SNI + certificate validation instead of the
    /// endpoint host (e.g. when connecting by IP).
    pub domain_override: Option<String>,
    /// PEM client certificate for mutual TLS (server has
    /// `thrift_ssl_client_auth=true`). Must be set together with
    /// [`client_key_path`](Self::client_key_path).
    pub client_cert_path: Option<String>,
    /// PEM PKCS#8 private key for the client certificate. Must be set
    /// together with [`client_cert_path`](Self::client_cert_path).
    pub client_key_path: Option<String>,
}

/// TLS settings with their texts as character sequences.
#[verifier::ext_equal]
pub struct TlsOptionsView {
    pub ca_cert_path: Option<Seq<char>>,
    pub accept_invalid_certs: bool,
    pub domain_override: Option<Seq<char>>,
    pub client_cert_path: Option<Seq<char>>,
    pub client_key_path: Option<Seq<char>>,
}

/// A text, where there is one.
pub open spec fn text_view(s: Option<String>) -> Option<Seq<char>> {
    match s {
        Some(t) => Some(t@),
        None => None,
    }
}

impl View for TlsOptions {
    type V = TlsOptionsView;

    open spec fn view(&self) -> TlsOptionsView {
        TlsOptionsView {
            ca_cert_path: text_view(self.ca_cert_path),
            accept_invalid_certs: self.accept_invalid_certs,
            domain_override: text_view(self.domain_override),
            client_cert_path: text_view(self.client_cert_path),
            client_key_path: text_view(self.client_key_path),
        }
    }
}

/// Settings that add nothing to a plain TLS handshake.
pub open spec fn default_tls() -> TlsOptionsView {
    TlsOptionsView {
        ca_cert_path: None,
        accept_invalid_certs: false,
        domain_override: None,
        client_cert_path: None,
        client_key_path: None,
    }
}

impl Default for TlsOptions {
    fn default() -> (tls: TlsOptions)
        ensures
            tls@ == default_tls(),
    {
        TlsOptions {
            ca_cert_path: None,
            accept_invalid_certs: false,
            domain_override: None,
            client_cert_path: None,
            client_key_path: None,
        }
    }
}

/// A copy of a text, where there is one.
pub(crate) fn copy_text(s: &Option<String>) -> (copy: Option<String>)
    ensures
        copy == *s,
{
    match s {
        Some(t) => Some(t.clone()),
        None => None,
    }
}

impl Clone for TlsOptions {
    fn clone(&self) -> (copy: TlsOptions)
        ensures
            copy == *self,
    {
        TlsOptions {
            ca_cert_path: copy_text(&self.ca_cert_path),
            accept_invalid_certs: self.accept_invalid_certs,
            domain_override: copy_text(&self.domain_override),
            client_cert_path: copy_text(&self.client_cert_path),
            client_key_path: copy_text(&self.client_key_path),
        }
    }
}

/// A copy of TLS settings, where there are any.
pub(crate) fn copy_tls(tls: &Option<TlsOptions>) -> (copy: Option<TlsOptions>)
    ensures
        copy == *tls,
{
    match tls {
        Some(t) => Some(t.clone()),
        None => None,
    }
}

/// What `rustls_pemfile::certs` finds in a PEM text: the DER bytes of every
/// certificate section in order, or the text of the first error.
pub uninterp spec fn pem_certificates(pem: Seq<u8>) -> std::result::Result<
    Seq<Seq<u8>>,
    Seq<char>,
>;

/// What `rustls_pemfile::pkcs8_private_keys` yields first on a PEM text: the
/// DER bytes of the first PKCS#8 key section, nothing, or the text of an error
/// before it.
pub uninterp spec fn pem_pkcs8_key(pem: Seq<u8>) -> std::result::Result<
    Option<Seq<u8>>,
    Seq<char>,
>;

/// What `rustls::pki_types::ServerName::try_from` makes of a domain: the name
/// as it writes it back, or the text of its error.
pub uninterp spec fn tls_server_name(domain: Seq<char>) -> std::result::Result<
    Seq<char>,
    Seq<char>,
>;

/// The bytes of several byte strings.
pub open spec fn byte_strings(list: Seq<Vec<u8>>) -> Seq<Seq<u8>> {
    list.map_values(|v: Vec<u8>| v@)
}

/// `rustls_pemfile::certs` on a PEM text held in memory, as
/// `pem_certificates` names it.
#[verifier::external_body]
pub(crate) fn certificates_in(pem: &[u8]) -> (found: std::result::Result<Vec<Vec<u8>>, String>)
    ensures
        match (found, pem_certificates(pem@)) {
            (Ok(list), Ok(expected)) => byte_strings(list@) == expected,
            (Err(e), Err(m)) => e@ == m,
            _ => false,
        },
{
    let mut reader = pem;
    rustls_pemfile::certs(&mut reader)
        .map(|item| item.map(|der| der.to_vec()))
        .collect::<std::io::Result<Vec<Vec<u8>>>>()
        .map_err(|e| e.to_string())
}

/// The first item of `rustls_pemfile::pkcs8_private_keys` on a PEM text held in
/// memory, as `pem_pkcs8_key` names it.
#[verifier::external_body]
pub(crate) fn first_pkcs8_key_in(pem: &[u8]) -> (found: std::result::Result<Option<Vec<u8>>, String>)
    ensures
        match (found, pem_pkcs8_key(pem@)) {
            (Ok(Some(key)), Ok(Some(expected))) => key@ == expected,
            (Ok(None), Ok(None)) => true,
            (Err(e), Err(m)) => e@ == m,
            _ => false,
        },
{
    let mut reader = pem;
    let first = rustls_pemfile::pkcs8_private_keys(&mut reader).next();
    match first.transpose() {
        Ok(key) => Ok(key.map(|der| der.secret_pkcs8_der().to_vec())),
        Err(e) => Err(e.to_string()),
    }
}

/// `rustls::pki_types::ServerName::try_from` on a domain, and the text of the
/// name or of the error, as `tls_server_name` names it.
#[verifier::external_body]
fn parse_server_name(domain: &str) -> (name: std::result::Result<String, String>)
    ensures
        match (name, tls_server_name(domain@)) {
            (Ok(n), Ok(expected)) => n@ == expected,
            (Err(e), Err(m)) => e@ == m,
            _ => false,
        },
{
    match rustls::pki_types::ServerName::try_from(domain.to_owned()) {
        Ok(name) => Ok(name.to_str().into_owned()),
        Err(e) => Err(e.to_string()),
    }
}

/// The error of a PEM file that cannot be read: `what` names the file's role.
pub fn unreadable_file(what: &str, path: &str, detail: &str) -> (e: Error)
    ensures
        e@ == ErrorView::Client("cannot read "@ + what@ + " "@ + path@ + ": "@ + detail@),
{
    let mut m = "cannot read ".to_owned();
    m.append(what);
    m.append(" ");
    m.append(path);
    m.append(": ");
    m.append(detail);
    Error::Client(m)
}

/// The certificates that parsing a PEM file found, checked: an error where
/// parsing failed, and where the file holds no certificate.
pub open spec fn checked_certificates(
    found: std::result::Result<Seq<Seq<u8>>, Seq<char>>,
    what: Seq<char>,
    path: Seq<char>,
) -> std::result::Result<Seq<Seq<u8>>, Seq<char>> {
    match found {
        Err(m) => Err("cannot parse "@ + what + ": "@ + m),
        Ok(list) => if list.len() == 0 {
            Err(what + " "@ + path + " contains no PEM certificates"@)
        } else {
            Ok(list)
        },
    }
}

/// The views of a list of certificates or of the complaint about it.
pub open spec fn found_view(
    found: std::result::Result<Vec<Vec<u8>>, String>,
) -> std::result::Result<Seq<Seq<u8>>, Seq<char>> {
    match found {
        Ok(list) => Ok(byte_strings(list@)),
        Err(m) => Err(m@),
    }
}

/// Checks what parsing a PEM file of certificates found.
pub fn check_certificates(
    found: std::result::Result<Vec<Vec<u8>>, String>,
    description: &str,
    path: &str,
) -> (certificates: Result<Vec<Vec<u8>>>)
    ensures
        match (
            certificates,
            checked_certificates(found_view(found), description@, path@),
        ) {
            (Ok(list), Ok(expected)) => byte_strings(list@) == expected,
            (Err(e), Err(m)) => e@ == ErrorView::Tls(m),
            _ => false,
        },
{
    match found {
        Err(detail) => {
            let mut m = "cannot parse ".to_owned();
            m.append(description);
            m.append(": ");
            m.append(detail.as_str());
            Err(Error::Tls(m))
        },
        Ok(list) => {
            if list.len() == 0 {
                let mut m = description.to_owned();
                m.append(" ");
                m.append(path);
                m.append(" contains no PEM certificates");
                Err(Error::Tls(m))
            } else {
                Ok(list)
            }
        },
    }
}

/// The certificates in the PEM text of the file at `path`; `description`
/// names the file's role.
pub fn load_certificates(pem: &[u8], description: &str, path: &str) -> (certificates: Result<
    Vec<Vec<u8>>,
>)
    ensures
        match (
            certificates,
            checked_certificates(pem_certificates(pem@), description@, path@),
        ) {
            (Ok(list), Ok(expected)) => byte_strings(list@) == expected,
            (Err(e), Err(m)) => e@ == ErrorView::Tls(m),
            _ => false,
        },
{
    check_certificates(certificates_in(pem), description, path)
}

/// The client key that parsing a PEM file found, checked.
pub open spec fn checked_key(
    found: std::result::Result<Option<Seq<u8>>, Seq<char>>,
) -> std::result::Result<Seq<u8>, Seq<char>> {
    match found {
        Err(m) => Err("cannot parse client key: "@ + m),
        Ok(None) => Err("client key is not a PEM PKCS#8 private key"@),
        Ok(Some(key)) => Ok(key),
    }
}

/// The views of a key or of the complaint about it.
pub open spec fn key_view(
    found: std::result::Result<Option<Vec<u8>>, String>,
) -> std::result::Result<Option<Seq<u8>>, Seq<char>> {
    match found {
        Ok(Some(key)) => Ok(Some(key@)),
        Ok(None) => Ok(None),
        Err(m) => Err(m@),
    }
}

/// Checks what parsing a PEM file of a client key found.
pub fn check_client_key(found: std::result::Result<Option<Vec<u8>>, String>) -> (key: Result<
    Vec<u8>,
>)
    ensures
        match (key, checked_key(key_view(found))) {
            (Ok(k), Ok(expected)) => k@ == expected,
            (Err(e), Err(m)) => e@ == ErrorView::Tls(m),
            _ => false,
        },
{
    match found {
        Err(detail) => {
            let mut m = "cannot parse client key: ".to_owned();
            m.append(detail.as_str());
            Err(Error::Tls(m))
        },
        Ok(None) => Err(Error::Tls("client key is not a PEM PKCS#8 private key".to_owned())),
        Ok(Some(key)) => Ok(key),
    }
}

/// The client key in the PEM text of a key file.
pub fn load_client_key(pem: &[u8]) -> (key: Result<Vec<u8>>)
    ensures
        match (key, checked_key(pem_pkcs8_key(pem@))) {
            (Ok(k), Ok(expected)) => k@ == expected,
            (Err(e), Err(m)) => e@ == ErrorView::Tls(m),
            _ => false,
        },
{
    check_client_key(first_pkcs8_key_in(pem))
}

/// How the client identifies itself to the server.
#[derive(Debug)]
pub enum ClientIdentity {
    /// Not at all.
    Anonymous,
    /// With a certificate and the key to it, both read from files.
    Files { cert_path: String, key_path: String },
}

impl TlsOptions {
    /// The client's identity: a certificate and a key, or neither.
    pub fn client_identity(&self) -> (identity: Result<ClientIdentity>)
        ensures
            match (self.client_cert_path, self.client_key_path) {
                (Some(cert), Some(key)) => identity == Ok::<ClientIdentity, Error>(
                    ClientIdentity::Files { cert_path: cert, key_path: key },
                ),
                (None, None) => identity == Ok::<ClientIdentity, Error>(ClientIdentity::Anonymous),
                _ => identity matches Err(e) && e@ == ErrorView::Client(
                    "mutual TLS requires both client_cert_path and client_key_path"@,
                ),
            },
    {
        match (&self.client_cert_path, &self.client_key_path) {
            (Some(cert), Some(key)) => Ok(
                ClientIdentity::Files { cert_path: cert.clone(), key_path: key.clone() },
            ),
            (None, None) => Ok(ClientIdentity::Anonymous),
            _ => Err(
                Error::Client(
                    "mutual TLS requires both client_cert_path and client_key_path".to_owned(),
                ),
            ),
        }
    }

    /// The name the server's certificate must carry: the override where there
    /// is one, the endpoint's host otherwise.
    pub fn domain(&self, endpoint: &Endpoint) -> (domain: String)
        ensures
            domain@ == expected_domain(self@, endpoint@),
    {
        match &self.domain_override {
            Some(domain) => domain.clone(),
            None => endpoint.host.clone(),
        }
    }

    /// The server name for the TLS handshake with `endpoint`.
    pub fn server_name(&self, endpoint: &Endpoint) -> (name: Result<String>)
        ensures
            match (
                name,
                checked_server_name(
                    tls_server_name(expected_domain(self@, endpoint@)),
                    expected_domain(self@, endpoint@),
                ),
            ) {
                (Ok(n), Ok(expected)) => n@ == expected,
                (Err(e), Err(m)) => e@ == ErrorView::Client(m),
                _ => false,
            },
    {
        let domain = self.domain(endpoint);
        let parsed = parse_server_name(domain.as_str());
        check_server_name(parsed, domain.as_str())
    }
}

/// The name that the server's certificate must carry.
pub open spec fn expected_domain(tls: TlsOptionsView, endpoint: EndpointView) -> Seq<char> {
    match tls.domain_override {
        Some(domain) => domain,
        None => endpoint.host,
    }
}

/// A parsed server name, checked.
pub open spec fn checked_server_name(
    parsed: std::result::Result<Seq<char>, Seq<char>>,
    domain: Seq<char>,
) -> std::result::Result<Seq<char>, Seq<char>> {
    match parsed {
        Ok(name) => Ok(name),
        Err(m) => Err("invalid TLS server name '"@ + domain + "': "@ + m),
    }
}

/// The views of a parsed server name.
pub open spec fn name_view(parsed: std::result::Result<String, String>) -> std::result::Result<
    Seq<char>,
    Seq<char>,
> {
    match parsed {
        Ok(name) => Ok(name@),
        Err(m) => Err(m@),
    }
}

/// Checks a parsed server name.
pub fn check_server_name(parsed: std::result::Result<String, String>, domain: &str) -> (name:
    Result<String>)
    ensures
        match (name, checked_server_name(name_view(parsed), domain@)) {
            (Ok(n), Ok(expected)) => n@ == expected,
            (Err(e), Err(m)) => e@ == ErrorView::Client(m),
            _ => false,
        },
{
    match parsed {
        Ok(name) => Ok(name),
        Err(detail) => {
            let mut m = "invalid TLS server name '".to_owned();
            m.append(domain);
            m.append("': ");
            m.append(detail.as_str());
            Err(Error::Client(m))
        },
    }
}

/// Whether the handshake came to its end.
pub fn handshake_outcome(is_handshaking: bool) -> (done: Result<()>)
    ensures
        match done {
            Ok(_) => !is_handshaking,
            Err(e) => is_handshaking && e@ == ErrorView::Tls("TLS handshake did not complete"@),
        },
{
    if is_handshaking {
        return Err(Error::Tls("TLS handshake did not complete".to_owned()));
    }
    Ok(())
}

/// The text of the bound that a stalled handshake ran into.
pub open spec fn bound_text(socket_timeout: Option<Duration>) -> Seq<char> {
    match socket_timeout {
        None => "no socket timeout"@,
        Some(t) => shown_duration(t),
    }
}

/// The error of a failed handshake. A blocking socket with a read timeout
/// reports a stalled peer as one of two error kinds; `timed_out` says that it
/// did, and the error then names the bound.
pub fn handshake_error(timed_out: bool, detail: &str, socket_timeout: Option<Duration>) -> (e:
    Error)
    ensures
        e@ == ErrorView::Tls(
            if timed_out {
                "TLS handshake timed out ("@ + bound_text(socket_timeout) + ")"@
            } else {
                detail@
            },
        ),
{
    if !timed_out {
        return Error::Tls(detail.to_owned());
    }
    let bound = match socket_timeout {
        None => "no socket timeout".to_owned(),
        Some(t) => t.show(),
    };
    let mut m = "TLS handshake timed out (".to_owned();
    m.append(bound.as_str());
    m.append(")");
    Error::Tls(m)
}

} // verus!
