//! How a TLS setup proceeds, and what it takes from the files it reads.

use vstd::prelude::*;

use super::pem_break::{
    broken_certificates, broken_key, complete_lines, pem_section, settled, settled_to,
};
use super::tls::{
    bound_text, checked_certificates, checked_key, checked_server_name, expected_domain,
    pem_certificates, pem_pkcs8_key, TlsOptionsView,
};
use super::tls_setup::{
    file_certificates, file_key, first_bad, good_anchors, looked_at, trust_anchor, AnchorView,
    PemFile, TlsSetupView, TlsStage, TlsStepView,
};
use super::EndpointView;
use crate::error::ErrorView;
use crate::time::{shown_duration, Duration};

verus! {

/// Of bytes whose reading broke off, the complete lines are all up to the last
/// line feed or carriage return: they end with one, and none stands behind.
pub proof fn law_complete_lines(bytes: Seq<u8>)
    ensures
        complete_lines(bytes).len() <= bytes.len(),
        complete_lines(bytes) == bytes.take(complete_lines(bytes).len() as int),
        complete_lines(bytes).len() > 0 ==> complete_lines(bytes).last() == 0x0A || complete_lines(
            bytes,
        ).last() == 0x0D,
        forall|i: int|
            complete_lines(bytes).len() <= i < bytes.len() ==> #[trigger] bytes[i] != 0x0A
                && bytes[i] != 0x0D,
    decreases bytes.len(),
{
    if bytes.len() == 0 || bytes.last() == 0x0A || bytes.last() == 0x0D {
        assert(bytes.take(bytes.len() as int) =~= bytes);
    } else {
        let rest = bytes.drop_last();
        law_complete_lines(rest);
        let n = complete_lines(bytes).len() as int;
        assert(bytes.take(n) =~= rest.take(n));
        assert forall|i: int| n <= i < bytes.len() implies #[trigger] bytes[i] != 0x0A && bytes[i]
            != 0x0D by {
            if i < rest.len() {
                assert(rest[i] == bytes[i]);
            }
        }
    }
}

/// Reading gets over a section that is complete, and goes on behind it; it
/// stops before one whose end is missing and where no section is left; a
/// malformed section decides everything.
pub proof fn law_reading_passes_complete_sections(lines: Seq<u8>, from: int)
    requires
        0 <= from <= lines.len(),
    ensures
        from <= settled_to(lines, from) <= lines.len(),
        pem_section(lines.skip(from)) == Ok::<Option<nat>, bool>(None) ==> settled_to(lines, from)
            == from,
        pem_section(lines.skip(from)) == Err::<Option<nat>, bool>(true) ==> settled_to(lines, from)
            == from,
        pem_section(lines.skip(from)) == Err::<Option<nat>, bool>(false) ==> settled_to(
            lines,
            from,
        ) == lines.len(),
        pem_section(lines.skip(from)) matches Ok(Some(rest)) ==> rest < lines.len() - from
            ==> settled_to(lines, from) == settled_to(lines, lines.len() - rest),
    decreases lines.len() - from,
{
    assert(lines.skip(from) =~= lines.subrange(from, lines.len() as int));
    if let Ok(Some(rest)) = pem_section(lines.skip(from)) {
        if rest < lines.len() - from {
            law_reading_passes_complete_sections(lines, lines.len() - rest);
        }
    }
}

/// What decides about a file whose reading broke off is a part of its complete
/// lines, from the beginning on.
pub proof fn law_settled_lines(read: Seq<u8>)
    ensures
        settled(read).len() <= complete_lines(read).len(),
        settled(read) == read.take(settled(read).len() as int),
        pem_section(complete_lines(read)) == Err::<Option<nat>, bool>(false) ==> settled(read)
            == complete_lines(read),
        pem_section(complete_lines(read)) == Err::<Option<nat>, bool>(true) ==> settled(read).len()
            == 0,
        pem_section(complete_lines(read)) == Ok::<Option<nat>, bool>(None) ==> settled(read).len()
            == 0,
{
    let lines = complete_lines(read);
    law_complete_lines(read);
    law_reading_passes_complete_sections(lines, 0);
    assert(lines.skip(0) =~= lines);
    assert(settled(read) =~= read.take(settled(read).len() as int));
    assert(lines.subrange(0, lines.len() as int) =~= lines);
}

/// Certificates are taken as they were found, if any were; a file without any
/// and a failure to parse are errors that name the file's role.
pub proof fn law_checked_certificates(
    found: std::result::Result<Seq<Seq<u8>>, Seq<char>>,
    what: Seq<char>,
    path: Seq<char>,
)
    ensures
        checked_certificates(found, what, path) is Ok <==> found is Ok && found->Ok_0.len() > 0,
        checked_certificates(found, what, path) matches Ok(list) ==> found == Ok::<
            Seq<Seq<u8>>,
            Seq<char>,
        >(list),
        found is Ok && found->Ok_0.len() == 0 ==> checked_certificates(found, what, path) == Err::<
            Seq<Seq<u8>>,
            Seq<char>,
        >(what + " "@ + path + " contains no PEM certificates"@),
        found matches Err(m) ==> checked_certificates(found, what, path) == Err::<
            Seq<Seq<u8>>,
            Seq<char>,
        >("cannot parse "@ + what + ": "@ + m),
{
}

/// A key is taken as it was found, if one was; a file without one and a failure
/// to parse are errors.
pub proof fn law_checked_key(found: std::result::Result<Option<Seq<u8>>, Seq<char>>)
    ensures
        checked_key(found) is Ok <==> found is Ok && found->Ok_0 is Some,
        checked_key(found) matches Ok(key) ==> found == Ok::<Option<Seq<u8>>, Seq<char>>(Some(key)),
        found is Ok && found->Ok_0 is None ==> checked_key(found) == Err::<Seq<u8>, Seq<char>>(
            "client key is not a PEM PKCS#8 private key"@,
        ),
        found matches Err(m) ==> checked_key(found) == Err::<Seq<u8>, Seq<char>>(
            "cannot parse client key: "@ + m,
        ),
{
}

/// A file of certificates whose reading broke off is reported like one that
/// could not be parsed: for the first error in what was read, and else for the
/// reason why reading broke off, whatever certificates came before.
pub proof fn law_broken_certificates(
    found: std::result::Result<Seq<Seq<u8>>, Seq<char>>,
    what: Seq<char>,
    path: Seq<char>,
    detail: Seq<char>,
)
    ensures
        found is Err ==> checked_certificates(found, what, path) == Err::<Seq<Seq<u8>>, Seq<char>>(
            broken_certificates(found, what, detail),
        ),
        found is Ok ==> checked_certificates(Err(detail), what, path) == Err::<
            Seq<Seq<u8>>,
            Seq<char>,
        >(broken_certificates(found, what, detail)),
{
}

/// A key that was read before reading broke off counts like one from a whole
/// file, and so does an error before it; without either, the reason why reading
/// broke off is reported.
pub proof fn law_broken_key(
    found: std::result::Result<Option<Seq<u8>>, Seq<char>>,
    detail: Seq<char>,
)
    ensures
        found is Err || found->Ok_0 is Some ==> broken_key(found, detail) == checked_key(found),
        found is Ok && found->Ok_0 is None ==> broken_key(found, detail) == checked_key(
            Err(detail),
        ),
{
}

/// What comes of a file of certificates: a file that was not opened cannot be
/// read, one that was read is checked, and one that broke off fails.
pub proof fn law_certificate_files(file: PemFile, what: Seq<char>, path: Seq<char>)
    ensures
        file matches PemFile::Unopened(detail) ==> file_certificates(file, what, path) == Err::<
            Seq<Seq<u8>>,
            ErrorView,
        >(ErrorView::Client("cannot read "@ + what + " "@ + path + ": "@ + detail@)),
        file is Broken ==> file_certificates(file, what, path) is Err && file_certificates(
            file,
            what,
            path,
        )->Err_0 is Tls,
        file matches PemFile::Read(bytes) ==> match file_certificates(file, what, path) {
            Ok(list) => list.len() > 0 && pem_certificates(bytes@) == Ok::<
                Seq<Seq<u8>>,
                Seq<char>,
            >(list),
            Err(e) => e is Tls && (pem_certificates(bytes@) is Err || pem_certificates(
                bytes@,
            )->Ok_0.len() == 0),
        },
{
}

/// What comes of a file of a client key: a file that was not opened cannot be
/// read, and one that was read, or as far as it was, gives the first key in it.
pub proof fn law_key_files(file: PemFile, path: Seq<char>)
    ensures
        file matches PemFile::Unopened(detail) ==> file_key(file, path) is Err && file_key(
            file,
            path,
        )->Err_0 is Client,
        file matches PemFile::Read(bytes) ==> match file_key(file, path) {
            Ok(key) => pem_pkcs8_key(bytes@) == Ok::<Option<Seq<u8>>, Seq<char>>(Some(key)),
            Err(e) => e is Tls && (pem_pkcs8_key(bytes@) is Err || pem_pkcs8_key(
                bytes@,
            )->Ok_0 is None),
        },
        file is Broken ==> match file_key(file, path) {
            Ok(key) => pem_pkcs8_key(settled(file->read@)) == Ok::<Option<Seq<u8>>, Seq<char>>(
                Some(key),
            ),
            Err(e) => e is Tls && (pem_pkcs8_key(settled(file->read@)) is Err || pem_pkcs8_key(
                settled(file->read@),
            )->Ok_0 is None),
        },
{
}

/// The server is to carry the name given for it, or else the endpoint's host.
pub proof fn law_expected_domain(tls: TlsOptionsView, endpoint: EndpointView)
    ensures
        tls.domain_override is None ==> expected_domain(tls, endpoint) == endpoint.host,
        tls.domain_override matches Some(domain) ==> expected_domain(tls, endpoint) == domain,
{
}

/// A server name that parses is taken as it is; the complaint about any other
/// names the domain and the reason.
pub proof fn law_server_names(
    parsed: std::result::Result<Seq<char>, Seq<char>>,
    domain: Seq<char>,
)
    ensures
        parsed is Ok ==> checked_server_name(parsed, domain) == parsed,
        parsed matches Err(m) ==> checked_server_name(parsed, domain) == Err::<
            Seq<char>,
            Seq<char>,
        >("invalid TLS server name '"@ + domain + "': "@ + m),
{
}

/// The bound of a handshake is the socket timeout, where there is one.
pub proof fn law_handshake_bound(socket_timeout: Option<Duration>)
    ensures
        socket_timeout is None ==> bound_text(socket_timeout) == "no socket timeout"@,
        socket_timeout matches Some(t) ==> bound_text(socket_timeout) == shown_duration(t),
{
}

/// The anchors kept are exactly the usable ones, in order: at the ascending
/// positions of all certificates that can be used.
pub proof fn law_usable_anchors_are_kept(
    found: Seq<std::result::Result<AnchorView, Seq<char>>>,
) -> (at: Seq<int>)
    ensures
        good_anchors(found).len() == at.len(),
        forall|a: int| 0 <= a < at.len() ==> 0 <= #[trigger] at[a] < found.len(),
        forall|a: int, b: int| 0 <= a < b < at.len() ==> #[trigger] at[a] < #[trigger] at[b],
        forall|a: int|
            0 <= a < at.len() ==> found[#[trigger] at[a]] == Ok::<AnchorView, Seq<char>>(
                good_anchors(found)[a],
            ),
        forall|k: int| 0 <= k < found.len() && (#[trigger] found[k]) is Ok ==> at.contains(k),
    decreases found.len(),
{
    if found.len() == 0 {
        Seq::empty()
    } else {
        let rest = found.drop_last();
        let last = found.len() - 1;
        let before = law_usable_anchors_are_kept(rest);
        let at = if found.last() is Ok {
            before.push(last)
        } else {
            before
        };
        assert forall|a: int| 0 <= a < at.len() implies found[#[trigger] at[a]] == Ok::<
            AnchorView,
            Seq<char>,
        >(good_anchors(found)[a]) by {
            if a < before.len() {
                assert(rest[before[a]] == found[at[a]]);
            }
        }
        assert forall|k: int| 0 <= k < found.len() && (
        #[trigger] found[k]) is Ok implies at.contains(k) by {
            if k < last {
                assert(rest[k] == found[k]);
                let a = choose|a: int| 0 <= a < before.len() && before[a] == k;
                assert(at[a] == k);
            } else {
                assert(at[at.len() - 1] == k);
            }
        }
        at
    }
}

/// The complaint about certificates is that about the first which cannot be
/// used; there is none if and only if all can.
pub proof fn law_first_unusable_anchor(found: Seq<std::result::Result<AnchorView, Seq<char>>>)
    ensures
        first_bad(found) is None <==> forall|i: int|
            0 <= i < found.len() ==> (#[trigger] found[i]) is Ok,
        first_bad(found) matches Some(m) ==> exists|i: int|
            {
                &&& 0 <= i < found.len()
                &&& #[trigger] found[i] == Err::<AnchorView, Seq<char>>(m)
                &&& forall|j: int| 0 <= j < i ==> (#[trigger] found[j]) is Ok
            },
    decreases found.len(),
{
    if found.len() > 0 {
        let rest = found.drop_last();
        let last = found.len() - 1;
        law_first_unusable_anchor(rest);
        assert forall|i: int| 0 <= i < last implies rest[i] == #[trigger] found[i] by {}
        if first_bad(rest) is None {
            assert forall|i: int| 0 <= i < last implies (#[trigger] found[i]) is Ok by {
                assert(rest[i] is Ok);
            }
            assert(found[last] == found.last());
        } else {
            let m = first_bad(rest)->0;
            let i = choose|i: int|
                {
                    &&& 0 <= i < rest.len()
                    &&& #[trigger] rest[i] == Err::<AnchorView, Seq<char>>(m)
                    &&& forall|j: int| 0 <= j < i ==> (#[trigger] rest[j]) is Ok
                };
            assert(found[i] == Err::<AnchorView, Seq<char>>(m));
            assert forall|j: int| 0 <= j < i implies (#[trigger] found[j]) is Ok by {
                assert(rest[j] is Ok);
            }
        }
    }
}

/// Files are asked for in this order, each only if it is named: the CA file
/// first, then the client's certificate and its key. Asking changes nothing.
pub proof fn law_files_are_asked_for(setup: TlsSetupView)
    requires
        setup.wf(),
    ensures
        setup.next() matches Ok((TlsStepView::Read(path), after)) ==> {
            &&& after == setup
            &&& setup.stage is Start ==> setup.options.ca_cert_path == Some(path)
            &&& setup.stage is Identity ==> setup.options.client_cert_path == Some(path)
            &&& setup.stage is Key ==> setup.options.client_key_path == Some(path)
            &&& !(setup.stage is Roots) && !(setup.stage is Ready)
        },
        setup.stage is Start && setup.options.ca_cert_path is Some && !setup.half_named()
            ==> setup.awaits_file(),
        setup.stage is Identity && setup.options.client_cert_path is Some ==> setup.awaits_file(),
        setup.stage is Key ==> setup.awaits_file(),
        setup.awaits_file() <==> (setup.next() is Ok && (setup.next()->Ok_0).0 is Read),
{
}

/// Once the extra roots are known it is settled whom to trust: anyone where
/// invalid certificates are accepted, and otherwise the platform's roots and
/// the extra ones. Then comes the client's identity, if it has one, and nothing
/// more.
pub proof fn law_trust_comes_before_identity(setup: TlsSetupView)
    requires
        setup.wf(),
        !setup.half_named(),
    ensures
        setup.stage is Roots || setup.stage is Start && setup.options.ca_cert_path is None ==> {
            &&& setup.next() is Ok
            &&& setup.options.accept_invalid_certs ==> (setup.next()->Ok_0).0 is TrustAnyone && (
            setup.next()->Ok_0).1.stage is Identity
            &&& !setup.options.accept_invalid_certs ==> (setup.next()->Ok_0).0 is LoadNativeRoots
                && (setup.next()->Ok_0).1.stage is Roots
        },
        setup.stage is Identity && setup.options.client_cert_path is None || setup.stage is Ready
            ==> {
            &&& setup.next() is Ok
            &&& (setup.next()->Ok_0).0 is Finish
            &&& (setup.next()->Ok_0).1.stage is Ready
        },
        setup.next() matches Ok((_, after)) ==> {
            &&& after.options == setup.options
            &&& after.roots == setup.roots
            &&& after.chain == setup.chain
            &&& after.key == setup.key
        },
        setup.awaits_roots() <==> setup.stage is Roots && !setup.options.accept_invalid_certs,
{
}

/// Only one of the two files of an identity makes half an identity.
pub proof fn law_half_identity(setup: TlsSetupView)
    ensures
        setup.half_named() <==> {
            ||| setup.options.client_cert_path is Some && setup.options.client_key_path is None
            ||| setup.options.client_cert_path is None && setup.options.client_key_path is Some
        },
{
}

/// A file that is taken in serves what it was asked for: the CA file gives the
/// extra roots, then the client's certificate its chain, and the key file its
/// key. Nothing that was there before changes, and the setup goes on behind it.
pub proof fn law_files_serve_their_purpose(setup: TlsSetupView, file: PemFile)
    requires
        setup.wf(),
        setup.awaits_file(),
    ensures
        setup.with_file(file) matches Ok(after) ==> {
            &&& after.wf()
            &&& after.options == setup.options
            &&& setup.stage is Start ==> after.stage is Roots && file_certificates(
                file,
                "CA certificate"@,
                setup.options.ca_cert_path->0,
            ) == Ok::<Seq<Seq<u8>>, ErrorView>(after.roots) && after.chain == setup.chain
                && after.key == setup.key
            &&& setup.stage is Identity ==> after.stage is Key && file_certificates(
                file,
                "client certificate"@,
                setup.options.client_cert_path->0,
            ) == Ok::<Seq<Seq<u8>>, ErrorView>(after.chain) && after.roots == setup.roots
                && after.key == setup.key
            &&& setup.stage is Key ==> after.stage is Ready && after.key is Some && file_key(
                file,
                setup.options.client_key_path->0,
            ) == Ok::<Seq<u8>, ErrorView>(after.key->0) && after.roots == setup.roots
                && after.chain == setup.chain
        },
        setup.with_file(file) matches Err(e) ==> {
            &&& setup.stage is Start ==> file_certificates(
                file,
                "CA certificate"@,
                setup.options.ca_cert_path->0,
            ) == Err::<Seq<Seq<u8>>, ErrorView>(e)
            &&& setup.stage is Identity ==> file_certificates(
                file,
                "client certificate"@,
                setup.options.client_cert_path->0,
            ) == Err::<Seq<Seq<u8>>, ErrorView>(e)
            &&& setup.stage is Key ==> file_key(file, setup.options.client_key_path->0) == Err::<
                Seq<u8>,
                ErrorView,
            >(e)
        },
{
}

/// A setup begins with nothing read and nothing settled.
pub proof fn law_setup_begins_empty(options: TlsOptionsView)
    ensures
        TlsSetupView::begun(options).options == options,
        TlsSetupView::begun(options).stage == TlsStage::Start,
        TlsSetupView::begun(options).roots.len() == 0,
        TlsSetupView::begun(options).chain.len() == 0,
        TlsSetupView::begun(options).key is None,
{
}

/// Each certificate is looked at by itself, in order.
pub proof fn law_certificates_are_looked_at(ders: Seq<Seq<u8>>, i: int)
    requires
        0 <= i < ders.len(),
    ensures
        looked_at(ders).len() == ders.len(),
        looked_at(ders)[i] == trust_anchor(ders[i]),
{
}

} // verus!
