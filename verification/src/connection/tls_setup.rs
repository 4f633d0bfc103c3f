//! The setup of a TLS client, step by step: which files to read, whom to
//! trust and how the client identifies itself.
//!
//! A [`TlsSetup`] decides; its owner reads the files and loads the platform's
//! roots as it says, and hands back what came of it.

use vstd::prelude::*;
use vstd::string::*;

use super::pem_break::{
    broken_certificates, broken_key, certificates_of_broken, key_of_broken, settled,
};
use super::tls::{
    byte_strings, checked_certificates, checked_key, load_certificates, load_client_key,
    pem_certificates, pem_pkcs8_key, unreadable_file, TlsOptions, TlsOptionsView,
};
use crate::error::{Error, ErrorView, Result};

verus! {

/// What reading a PEM file came to.
#[derive(Debug)]
pub enum PemFile {
    /// It could not be opened, for this reason.
    Unopened(String),
    /// Reading it broke off behind these bytes, for this reason.
    Broken { read: Vec<u8>, detail: String },
    /// These are its bytes.
    Read(Vec<u8>),
}

/// The certificates in a PEM file, or the error about it; `what` names the
/// file's role.
pub open spec fn file_certificates(
    file: PemFile,
    what: Seq<char>,
    path: Seq<char>,
) -> std::result::Result<Seq<Seq<u8>>, ErrorView> {
    match file {
        PemFile::Unopened(detail) => Err(
            ErrorView::Client("cannot read "@ + what + " "@ + path + ": "@ + detail@),
        ),
        PemFile::Broken { read, detail } => Err(
            ErrorView::Tls(
                broken_certificates(pem_certificates(settled(read@)), what, detail@),
            ),
        ),
        PemFile::Read(bytes) => match checked_certificates(
            pem_certificates(bytes@),
            what,
            path,
        ) {
            Ok(list) => Ok(list),
            Err(m) => Err(ErrorView::Tls(m)),
        },
    }
}

/// The client key in a PEM file, or the error about it.
pub open spec fn file_key(file: PemFile, path: Seq<char>) -> std::result::Result<
    Seq<u8>,
    ErrorView,
> {
    match file {
        PemFile::Unopened(detail) => Err(
            ErrorView::Client("cannot read "@ + "client key"@ + " "@ + path + ": "@ + detail@),
        ),
        PemFile::Broken { read, detail } => match broken_key(
            pem_pkcs8_key(settled(read@)),
            detail@,
        ) {
            Ok(key) => Ok(key),
            Err(m) => Err(ErrorView::Tls(m)),
        },
        PemFile::Read(bytes) => match checked_key(pem_pkcs8_key(bytes@)) {
            Ok(key) => Ok(key),
            Err(m) => Err(ErrorView::Tls(m)),
        },
    }
}

/// Takes the certificates out of a PEM file.
pub fn certificates_of_file(file: PemFile, description: &str, path: &str) -> (certificates: Result<
    Vec<Vec<u8>>,
>)
    ensures
        match (certificates, file_certificates(file, description@, path@)) {
            (Ok(list), Ok(expected)) => byte_strings(list@) == expected,
            (Err(e), Err(expected)) => e@ == expected,
            _ => false,
        },
{
    match file {
        PemFile::Unopened(detail) => Err(unreadable_file(description, path, detail.as_str())),
        PemFile::Broken { read, detail } => certificates_of_broken(
            &read,
            detail,
            description,
            path,
        ),
        PemFile::Read(bytes) => load_certificates(bytes.as_slice(), description, path),
    }
}

/// Takes the client key out of a PEM file.
pub fn key_of_file(file: PemFile, path: &str) -> (key: Result<Vec<u8>>)
    ensures
        match (key, file_key(file, path@)) {
            (Ok(k), Ok(expected)) => k@ == expected,
            (Err(e), Err(expected)) => e@ == expected,
            _ => false,
        },
{
    match file {
        PemFile::Unopened(detail) => Err(unreadable_file("client key", path, detail.as_str())),
        PemFile::Broken { read, detail } => key_of_broken(&read, detail),
        PemFile::Read(bytes) => load_client_key(bytes.as_slice()),
    }
}

/// A certificate as a root of trust: the DER bytes of its subject, its public
/// key and its name constraints.
#[derive(Debug)]
pub struct TrustAnchor {
    pub subject: Vec<u8>,
    pub public_key_info: Vec<u8>,
    pub name_constraints: Option<Vec<u8>>,
}

/// The bytes of a trust anchor.
pub type AnchorView = (Seq<u8>, Seq<u8>, Option<Seq<u8>>);

impl View for TrustAnchor {
    type V = AnchorView;

    open spec fn view(&self) -> AnchorView {
        (
            self.subject@,
            self.public_key_info@,
            match self.name_constraints {
                Some(bytes) => Some(bytes@),
                None => None,
            },
        )
    }
}

/// What `rustls::RootCertStore::add` makes of a certificate in DER: the
/// subject, public key and name constraints of the root it adds, or the text
/// of its error.
pub uninterp spec fn trust_anchor(der: Seq<u8>) -> std::result::Result<
    (Seq<u8>, Seq<u8>, Option<Seq<u8>>),
    Seq<char>,
>;

/// A certificate that was looked at as a root of trust, or the complaint.
pub open spec fn anchor_view(
    found: std::result::Result<TrustAnchor, String>,
) -> std::result::Result<AnchorView, Seq<char>> {
    match found {
        Ok(anchor) => Ok(anchor@),
        Err(m) => Err(m@),
    }
}

/// `rustls::RootCertStore::add` of one certificate to an empty store, and the
/// root that the store then holds, as `trust_anchor` names it.
#[verifier::external_body]
fn anchor_of(der: &[u8]) -> (found: std::result::Result<TrustAnchor, String>)
    ensures
        anchor_view(found) == trust_anchor(der@),
{
    let mut store = rustls::RootCertStore::empty();
    match store.add(rustls::pki_types::CertificateDer::from(der)) {
        Ok(()) => {
            let root = store.roots.remove(0);
            Ok(TrustAnchor {
                subject: root.subject.to_vec(),
                public_key_info: root.subject_public_key_info.to_vec(),
                name_constraints: root.name_constraints.map(|bytes| bytes.to_vec()),
            })
        },
        Err(e) => Err(e.to_string()),
    }
}

/// The views of several certificates that were looked at as roots of trust.
pub open spec fn anchor_views(
    found: Seq<std::result::Result<TrustAnchor, String>>,
) -> Seq<std::result::Result<AnchorView, Seq<char>>> {
    found.map_values(|f: std::result::Result<TrustAnchor, String>| anchor_view(f))
}

/// What comes of looking at each certificate as a root of trust.
pub open spec fn looked_at(ders: Seq<Seq<u8>>) -> Seq<
    std::result::Result<AnchorView, Seq<char>>,
> {
    ders.map_values(|der: Seq<u8>| trust_anchor(der))
}

/// The bytes of several trust anchors.
pub open spec fn anchors_view(anchors: Seq<TrustAnchor>) -> Seq<AnchorView> {
    anchors.map_values(|a: TrustAnchor| a@)
}

/// The anchors among what was found, in order.
pub open spec fn good_anchors(
    found: Seq<std::result::Result<AnchorView, Seq<char>>>,
) -> Seq<AnchorView>
    decreases found.len(),
{
    if found.len() == 0 {
        Seq::empty()
    } else {
        match found.last() {
            Ok(anchor) => good_anchors(found.drop_last()).push(anchor),
            Err(_) => good_anchors(found.drop_last()),
        }
    }
}

/// The first complaint among what was found.
pub open spec fn first_bad(found: Seq<std::result::Result<AnchorView, Seq<char>>>) -> Option<
    Seq<char>,
>
    decreases found.len(),
{
    if found.len() == 0 {
        None
    } else {
        match first_bad(found.drop_last()) {
            Some(m) => Some(m),
            None => match found.last() {
                Ok(_) => None,
                Err(m) => Some(m),
            },
        }
    }
}

/// Looks at each certificate as a root of trust.
fn look_at(ders: &Vec<Vec<u8>>) -> (found: Vec<std::result::Result<TrustAnchor, String>>)
    ensures
        anchor_views(found@) == looked_at(byte_strings(ders@)),
{
    let mut found: Vec<std::result::Result<TrustAnchor, String>> = Vec::new();
    let mut i: usize = 0;
    while i < ders.len()
        invariant
            i <= ders@.len(),
            found@.len() == i,
            forall|k: int|
                0 <= k < i ==> anchor_view(#[trigger] found@[k]) == trust_anchor(ders@[k]@),
        decreases ders@.len() - i,
    {
        found.push(anchor_of(ders[i].as_slice()));
        i += 1;
    }
    assert(anchor_views(found@) =~= looked_at(byte_strings(ders@)));
    found
}

/// Keeps the anchors among what was found, and counts the rest. The platform's
/// store may hold certificates that no trust can rest on: they are left out.
pub fn keep_good_anchors(found: Vec<std::result::Result<TrustAnchor, String>>) -> (kept: (
    Vec<TrustAnchor>,
    usize,
))
    ensures
        anchors_view(kept.0@) == good_anchors(anchor_views(found@)),
        kept.0@.len() + kept.1 == found@.len(),
{
    let total: usize = found.len();
    let mut anchors: Vec<TrustAnchor> = Vec::new();
    let ghost all = anchor_views(found@);
    let ghost start = found@;
    assert(all.subrange(0, 0) =~= Seq::empty());
    for f in it: found
        invariant
            it.seq() == start,
            all == anchor_views(start),
            anchors@.len() <= it.index(),
            anchors_view(anchors@) == good_anchors(all.subrange(0, it.index() as int)),
    {
        let ghost n = it.index() as int;
        assert(f == start[n]);
        assert(all[n] == anchor_view(start[n]));
        assert(all.subrange(0, n + 1).drop_last() =~= all.subrange(0, n));
        match f {
            Ok(anchor) => {
                let ghost before = anchors@;
                anchors.push(anchor);
                assert(anchors_view(anchors@) =~= anchors_view(before).push(anchor@));
            },
            Err(_) => {},
        }
    }
    assert(all.subrange(0, all.len() as int) =~= all);
    let ignored: usize = total - anchors.len();
    (anchors, ignored)
}

/// Appends all anchors to `anchors`; the first certificate that cannot be
/// one is an error.
pub fn append_all_anchors(
    anchors: &mut Vec<TrustAnchor>,
    found: Vec<std::result::Result<TrustAnchor, String>>,
) -> (done: Result<()>)
    ensures
        match (done, first_bad(anchor_views(found@))) {
            (Ok(_), None) => anchors_view(final(anchors)@) == anchors_view(old(anchors)@)
                + good_anchors(anchor_views(found@)),
            (Err(e), Some(m)) => e@ == ErrorView::Tls("cannot add CA certificate: "@ + m),
            _ => false,
        },
{
    let ghost all = anchor_views(found@);
    let ghost start = found@;
    let ghost begun = anchors_view(anchors@);
    assert(all.subrange(0, 0) =~= Seq::empty());
    assert(begun + good_anchors(all.subrange(0, 0)) =~= begun);
    for f in it: found
        invariant
            it.seq() == start,
            all == anchor_views(start),
            first_bad(all.subrange(0, it.index() as int)) is None,
            anchors_view(anchors@) == begun + good_anchors(all.subrange(0, it.index() as int)),
    {
        let ghost n = it.index() as int;
        assert(f == start[n]);
        assert(all[n] == anchor_view(start[n]));
        assert(all.subrange(0, n + 1).drop_last() =~= all.subrange(0, n));
        match f {
            Ok(anchor) => {
                let ghost before = anchors@;
                anchors.push(anchor);
                assert(anchors_view(anchors@) =~= anchors_view(before).push(anchor@));
                assert(begun + good_anchors(all.subrange(0, n)).push(anchor@) =~= (begun
                    + good_anchors(all.subrange(0, n))).push(anchor@));
            },
            Err(detail) => {
                proof {
                    lemma_first_bad_stays(all, n + 1, all.len() as int);
                    assert(all.subrange(0, all.len() as int) =~= all);
                }
                return Err(bad_ca_certificate(detail.as_str()));
            },
        }
    }
    assert(all.subrange(0, all.len() as int) =~= all);
    Ok(())
}

proof fn lemma_first_bad_stays(
    found: Seq<std::result::Result<AnchorView, Seq<char>>>,
    i: int,
    n: int,
)
    requires
        0 <= i <= n <= found.len(),
        first_bad(found.subrange(0, i)) is Some,
    ensures
        first_bad(found.subrange(0, n)) == first_bad(found.subrange(0, i)),
    decreases n,
{
    if i < n {
        lemma_first_bad_stays(found, i, n - 1);
        assert(found.subrange(0, n).drop_last() =~= found.subrange(0, n - 1));
    }
}

/// The error of a CA certificate that cannot be trusted as a root.
fn bad_ca_certificate(detail: &str) -> (e: Error)
    ensures
        e@ == ErrorView::Tls("cannot add CA certificate: "@ + detail@),
{
    let mut m = "cannot add CA certificate: ".to_owned();
    m.append(detail);
    Error::Tls(m)
}

/// How far a setup has come.
#[derive(Debug, Clone, Copy, PartialEq, Eq, Structural)]
pub enum TlsStage {
    /// The CA file, where one is named, has not been read.
    Start,
    /// The extra roots are known, and whom to trust is to be settled.
    Roots,
    /// The client's certificate, where one is named, has not been read.
    Identity,
    /// The client's key has not been read.
    Key,
    /// Nothing is left to do.
    Ready,
}

/// What to do next in a setup.
#[derive(Debug)]
pub enum TlsStep {
    /// Read this file and hand it to [`TlsSetup::supply_file`].
    Read(String),
    /// Load the platform's root certificates and hand them to
    /// [`TlsSetup::trusted_roots`].
    LoadNativeRoots,
    /// Trust every server.
    TrustAnyone,
    /// The setup is complete: [`TlsSetup::finish`] says how the client
    /// identifies itself.
    Finish,
}

/// A step with its text as a character sequence.
#[verifier::ext_equal]
pub enum TlsStepView {
    Read(Seq<char>),
    LoadNativeRoots,
    TrustAnyone,
    Finish,
}

impl View for TlsStep {
    type V = TlsStepView;

    open spec fn view(&self) -> TlsStepView {
        match *self {
            TlsStep::Read(path) => TlsStepView::Read(path@),
            TlsStep::LoadNativeRoots => TlsStepView::LoadNativeRoots,
            TlsStep::TrustAnyone => TlsStepView::TrustAnyone,
            TlsStep::Finish => TlsStepView::Finish,
        }
    }
}

/// How the client identifies itself, with the bytes that it takes.
#[derive(Debug)]
pub enum ClientAuth {
    /// Not at all.
    Anonymous,
    /// With this certificate chain and the PKCS#8 key to it, both in DER.
    Certificate { chain: Vec<Vec<u8>>, key: Vec<u8> },
}

/// The roots that a server's certificate may rest on.
#[derive(Debug)]
pub struct TrustedRoots {
    /// The platform's, followed by the extra ones.
    pub anchors: Vec<TrustAnchor>,
    /// How many of the platform's could not be used.
    pub ignored: usize,
}

/// The setup of a TLS client.
#[derive(Debug)]
pub struct TlsSetup {
    options: TlsOptions,
    stage: TlsStage,
    /// The certificates of the CA file.
    roots: Vec<Vec<u8>>,
    /// The client's certificates.
    chain: Vec<Vec<u8>>,
    key: Option<Vec<u8>>,
}

/// A setup: what it is made from, how far it has come and what it has read.
#[verifier::ext_equal]
pub struct TlsSetupView {
    pub options: TlsOptionsView,
    pub stage: TlsStage,
    pub roots: Seq<Seq<u8>>,
    pub chain: Seq<Seq<u8>>,
    pub key: Option<Seq<u8>>,
}

/// The complaint about a client certificate without a key, or a key without a
/// certificate.
pub open spec fn half_identity() -> Seq<char> {
    "mutual TLS requires both client_cert_path and client_key_path"@
}

impl TlsSetupView {
    /// A setup in which nothing has been done.
    pub open spec fn begun(options: TlsOptionsView) -> TlsSetupView {
        TlsSetupView {
            options,
            stage: TlsStage::Start,
            roots: Seq::empty(),
            chain: Seq::empty(),
            key: None,
        }
    }

    /// Whether only one of the two files of the client's identity is named.
    pub open spec fn half_named(self) -> bool {
        self.options.client_cert_path is Some != self.options.client_key_path is Some
    }

    /// Half an identity does not get past the start. A key is asked for only
    /// where both files of the client's identity are named, and only then can
    /// there be one at the end.
    pub open spec fn wf(self) -> bool {
        &&& !(self.stage is Start) ==> !self.half_named()
        &&& self.stage is Key || self.key is Some ==> self.options.client_cert_path is Some
            && self.options.client_key_path is Some
        &&& self.key is Some ==> self.stage is Ready
        &&& self.stage is Ready && self.options.client_cert_path is Some ==> self.key is Some
    }

    /// The step that settles whom to trust.
    pub open spec fn trust_step(self) -> (TlsStepView, TlsSetupView) {
        if self.options.accept_invalid_certs {
            (TlsStepView::TrustAnyone, TlsSetupView { stage: TlsStage::Identity, ..self })
        } else {
            (TlsStepView::LoadNativeRoots, TlsSetupView { stage: TlsStage::Roots, ..self })
        }
    }

    /// The next step, and the setup that waits for its outcome; or a
    /// complaint.
    pub open spec fn next(self) -> std::result::Result<(TlsStepView, TlsSetupView), Seq<char>> {
        match self.stage {
            TlsStage::Start => if self.half_named() {
                Err(half_identity())
            } else {
                match self.options.ca_cert_path {
                    Some(path) => Ok((TlsStepView::Read(path), self)),
                    None => Ok(self.trust_step()),
                }
            },
            TlsStage::Roots => Ok(self.trust_step()),
            TlsStage::Identity => match self.options.client_cert_path {
                Some(cert) => Ok((TlsStepView::Read(cert), self)),
                None => Ok((TlsStepView::Finish, TlsSetupView { stage: TlsStage::Ready, ..self })),
            },
            TlsStage::Key => Ok((TlsStepView::Read(self.options.client_key_path->0), self)),
            TlsStage::Ready => Ok((TlsStepView::Finish, self)),
        }
    }

    /// Whether the setup waits for a file.
    pub open spec fn awaits_file(self) -> bool {
        self.next() matches Ok((TlsStepView::Read(_), _))
    }

    /// Whether the setup waits for the platform's roots.
    pub open spec fn awaits_roots(self) -> bool {
        self.stage is Roots && !self.options.accept_invalid_certs
    }

    /// The setup after the file it waits for, or the error about the file.
    pub open spec fn with_file(self, file: PemFile) -> std::result::Result<
        TlsSetupView,
        ErrorView,
    > {
        match self.stage {
            TlsStage::Start => match file_certificates(
                file,
                "CA certificate"@,
                self.options.ca_cert_path->0,
            ) {
                Ok(roots) => Ok(TlsSetupView { stage: TlsStage::Roots, roots, ..self }),
                Err(e) => Err(e),
            },
            TlsStage::Identity => match file_certificates(
                file,
                "client certificate"@,
                self.options.client_cert_path->0,
            ) {
                Ok(chain) => Ok(TlsSetupView { stage: TlsStage::Key, chain, ..self }),
                Err(e) => Err(e),
            },
            _ => match file_key(file, self.options.client_key_path->0) {
                Ok(key) => Ok(TlsSetupView { stage: TlsStage::Ready, key: Some(key), ..self }),
                Err(e) => Err(e),
            },
        }
    }
}

impl View for TlsSetup {
    type V = TlsSetupView;

    closed spec fn view(&self) -> TlsSetupView {
        TlsSetupView {
            options: self.options@,
            stage: self.stage,
            roots: byte_strings(self.roots@),
            chain: byte_strings(self.chain@),
            key: match self.key {
                Some(key) => Some(key@),
                None => None,
            },
        }
    }
}

impl TlsSetup {
    /// Begins a setup.
    pub fn begin(options: TlsOptions) -> (setup: TlsSetup)
        ensures
            setup@ == TlsSetupView::begun(options@),
            setup@.wf(),
    {
        let setup = TlsSetup {
            options,
            stage: TlsStage::Start,
            roots: Vec::new(),
            chain: Vec::new(),
            key: None,
        };
        assert(setup@ =~= TlsSetupView::begun(options@));
        setup
    }

    fn trust_step(&mut self) -> (step: TlsStep)
        ensures
            (step@, final(self)@) == old(self)@.trust_step(),
    {
        if self.options.accept_invalid_certs {
            self.stage = TlsStage::Identity;
            TlsStep::TrustAnyone
        } else {
            self.stage = TlsStage::Roots;
            TlsStep::LoadNativeRoots
        }
    }

    /// What to do next.
    pub fn next_step(&mut self) -> (step: Result<TlsStep>)
        requires
            old(self)@.wf(),
        ensures
            final(self)@.wf(),
            match (step, old(self)@.next()) {
                (Ok(s), Ok(expected)) => s@ == expected.0 && final(self)@ == expected.1,
                (Err(e), Err(m)) => e@ == ErrorView::Client(m) && final(self)@ == old(self)@,
                _ => false,
            },
    {
        match self.stage {
            TlsStage::Start => {
                // Half an identity is an error before anything is read.
                match self.options.client_identity() {
                    Ok(_) => {},
                    Err(e) => return Err(e),
                }
                match &self.options.ca_cert_path {
                    Some(path) => Ok(TlsStep::Read(path.clone())),
                    None => Ok(self.trust_step()),
                }
            },
            TlsStage::Roots => Ok(self.trust_step()),
            TlsStage::Identity => match &self.options.client_cert_path {
                Some(path) => Ok(TlsStep::Read(path.clone())),
                None => {
                    self.stage = TlsStage::Ready;
                    Ok(TlsStep::Finish)
                },
            },
            TlsStage::Key => match &self.options.client_key_path {
                Some(path) => Ok(TlsStep::Read(path.clone())),
                None => Ok(TlsStep::Finish),
            },
            TlsStage::Ready => Ok(TlsStep::Finish),
        }
    }

    /// Takes in the file that was asked for.
    pub fn supply_file(&mut self, file: PemFile) -> (done: Result<()>)
        requires
            old(self)@.wf(),
            old(self)@.awaits_file(),
        ensures
            final(self)@.wf(),
            match (done, old(self)@.with_file(file)) {
                (Ok(_), Ok(expected)) => final(self)@ == expected,
                (Err(e), Err(expected)) => e@ == expected && final(self)@ == old(self)@,
                _ => false,
            },
    {
        match self.stage {
            TlsStage::Start => {
                let path = match &self.options.ca_cert_path {
                    Some(path) => path.as_str(),
                    None => "",
                };
                match certificates_of_file(file, "CA certificate", path) {
                    Ok(roots) => {
                        self.roots = roots;
                        self.stage = TlsStage::Roots;
                        Ok(())
                    },
                    Err(e) => Err(e),
                }
            },
            TlsStage::Identity => {
                let path = match &self.options.client_cert_path {
                    Some(path) => path.as_str(),
                    None => "",
                };
                match certificates_of_file(file, "client certificate", path) {
                    Ok(chain) => {
                        self.chain = chain;
                        self.stage = TlsStage::Key;
                        Ok(())
                    },
                    Err(e) => Err(e),
                }
            },
            _ => {
                let path = match &self.options.client_key_path {
                    Some(path) => path.as_str(),
                    None => "",
                };
                match key_of_file(file, path) {
                    Ok(key) => {
                        self.key = Some(key);
                        self.stage = TlsStage::Ready;
                        Ok(())
                    },
                    Err(e) => Err(e),
                }
            },
        }
    }

    /// Settles whom to trust: the platform's roots, as far as they can be
    /// used, and the extra ones, each of which must be usable.
    pub fn trusted_roots(&mut self, native: &Vec<Vec<u8>>) -> (trusted: Result<TrustedRoots>)
        requires
            old(self)@.wf(),
            old(self)@.awaits_roots(),
        ensures
            final(self)@.wf(),
            match (trusted, first_bad(looked_at(old(self)@.roots))) {
                (Ok(t), None) => {
                    let usable = good_anchors(looked_at(byte_strings(native@)));
                    &&& anchors_view(t.anchors@) == usable + good_anchors(
                        looked_at(old(self)@.roots),
                    )
                    &&& t.ignored == native@.len() - usable.len()
                    &&& final(self)@ == (TlsSetupView {
                        stage: TlsStage::Identity,
                        ..old(self)@
                    })
                },
                (Err(e), Some(m)) => e@ == ErrorView::Tls("cannot add CA certificate: "@ + m)
                    && final(self)@ == old(self)@,
                _ => false,
            },
    {
        let found = look_at(native);
        assert(anchor_views(found@).len() == looked_at(byte_strings(native@)).len());
        let (mut anchors, ignored) = keep_good_anchors(found);
        assert(anchors_view(anchors@).len() == anchors@.len());
        let extra = look_at(&self.roots);
        match append_all_anchors(&mut anchors, extra) {
            Ok(()) => {
                self.stage = TlsStage::Identity;
                Ok(TrustedRoots { anchors, ignored })
            },
            Err(e) => Err(e),
        }
    }

    /// How the client identifies itself, once the setup is complete.
    pub fn finish(self) -> (auth: ClientAuth)
        requires
            self@.wf(),
            self@.stage is Ready,
        ensures
            match (auth, self@.key) {
                (ClientAuth::Certificate { chain, key }, Some(expected)) => byte_strings(chain@)
                    == self@.chain && key@ == expected,
                (ClientAuth::Anonymous, None) => true,
                _ => false,
            },
    {
        match self.key {
            Some(key) => ClientAuth::Certificate { chain: self.chain, key },
            None => ClientAuth::Anonymous,
        }
    }
}

/// A setup that comes to its end identifies the client exactly where a
/// certificate and a key are named, whatever was read on the way.
pub proof fn law_identity_needs_both_files(setup: TlsSetupView)
    requires
        setup.wf(),
        setup.next() matches Ok((TlsStepView::Finish, _)),
    ensures
        (setup.next()->Ok_0).1.wf(),
        (setup.next()->Ok_0).1.stage is Ready,
        (setup.next()->Ok_0).1.key is Some <==> setup.options.client_cert_path is Some
            && setup.options.client_key_path is Some,
{
}

/// Half an identity is refused by the first step, before any file is read; and
/// nothing else is ever refused by a step of a setup.
pub proof fn law_half_identity_is_refused_first(options: TlsOptionsView, setup: TlsSetupView)
    requires
        setup.wf(),
    ensures
        TlsSetupView::begun(options).next() is Err <==> TlsSetupView::begun(options).half_named(),
        setup.next() is Err ==> setup.stage is Start && setup.half_named() && setup.next()
            == Err::<(TlsStepView, TlsSetupView), Seq<char>>(half_identity()),
{
}

/// No step of a setup trusts every server, unless the options accept invalid
/// certificates; and with such options no roots are ever asked for.
pub proof fn law_trust_follows_the_options(setup: TlsSetupView)
    requires
        setup.next() is Ok,
    ensures
        (setup.next()->Ok_0).0 is TrustAnyone ==> setup.options.accept_invalid_certs,
        (setup.next()->Ok_0).0 is LoadNativeRoots ==> !setup.options.accept_invalid_certs
            && (setup.next()->Ok_0).1.awaits_roots(),
{
}

} // verus!
