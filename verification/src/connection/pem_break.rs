//! PEM files whose reading broke off: what a reader that takes them line by
//! line has seen of them by then.

use vstd::prelude::*;
use vstd::slice::slice_subrange;
use vstd::string::*;

use super::tls::{
    certificates_in, check_certificates, check_client_key, first_pkcs8_key_in, found_view,
    key_view, pem_certificates, pem_pkcs8_key,
};
use crate::error::{ErrorView, Result};

verus! {

/// What `rustls_pemfile::read_one_from_slice` finds at the start of a PEM text:
/// a section, with the length of what follows it; nothing; or an error, and
/// whether that is a section without an end.
pub uninterp spec fn pem_section(pem: Seq<u8>) -> std::result::Result<Option<nat>, bool>;

/// What was found at the start of a PEM text, with its length as a number.
pub open spec fn section_view(
    found: std::result::Result<Option<usize>, bool>,
) -> std::result::Result<Option<nat>, bool> {
    match found {
        Ok(Some(rest)) => Ok(Some(rest as nat)),
        Ok(None) => Ok(None),
        Err(unended) => Err(unended),
    }
}

/// `rustls_pemfile::read_one_from_slice`, as `pem_section` names it. What
/// follows a section is shorter than the text that it was found in.
#[verifier::external_body]
fn section_in(pem: &[u8]) -> (found: std::result::Result<Option<usize>, bool>)
    ensures
        section_view(found) == pem_section(pem@),
        found matches Ok(Some(rest)) ==> rest < pem@.len(),
{
    match rustls_pemfile::read_one_from_slice(pem) {
        Ok(Some((_, rest))) => Ok(Some(rest.len())),
        Ok(None) => Ok(None),
        Err(rustls_pemfile::Error::MissingSectionEnd { .. }) => Err(true),
        Err(rustls_pemfile::Error::IllegalSectionStart { .. }) => Err(false),
        Err(rustls_pemfile::Error::Base64Decode(_)) => Err(false),
    }
}

/// Whether a byte ends a line.
pub open spec fn ends_line(byte: u8) -> bool {
    byte == 10 || byte == 13
}

/// The bytes up to the last end of a line: a line that reading broke off in is
/// never seen.
pub open spec fn complete_lines(bytes: Seq<u8>) -> Seq<u8>
    decreases bytes.len(),
{
    if bytes.len() == 0 || ends_line(bytes.last()) {
        bytes
    } else {
        complete_lines(bytes.drop_last())
    }
}

/// How far into `lines` a reader that stands at `from` gets before it needs
/// more than there is: over every section with an end. A malformed section
/// stops it for good, and all lines count as seen.
pub open spec fn settled_to(lines: Seq<u8>, from: int) -> int
    decreases lines.len() - from,
{
    match pem_section(lines.subrange(from, lines.len() as int)) {
        Ok(Some(rest)) => if 0 <= from && rest < lines.len() - from {
            settled_to(lines, lines.len() - rest)
        } else {
            from
        },
        Ok(None) => from,
        Err(true) => from,
        Err(false) => lines.len() as int,
    }
}

/// The bytes of a file whose reading broke off behind `read` that decide about
/// its sections before the break does.
pub open spec fn settled(read: Seq<u8>) -> Seq<u8> {
    let lines = complete_lines(read);
    lines.subrange(0, settled_to(lines, 0))
}

fn count_complete(bytes: &Vec<u8>) -> (len: usize)
    ensures
        len <= bytes@.len(),
        bytes@.subrange(0, len as int) == complete_lines(bytes@),
{
    let mut len: usize = bytes.len();
    assert(bytes@.subrange(0, len as int) =~= bytes@);
    while len > 0 && bytes[len - 1] != 10 && bytes[len - 1] != 13
        invariant
            len <= bytes@.len(),
            complete_lines(bytes@.subrange(0, len as int)) == complete_lines(bytes@),
        decreases len,
    {
        let ghost part = bytes@.subrange(0, len as int);
        assert(part.last() == bytes@[len - 1]);
        assert(part.drop_last() =~= bytes@.subrange(0, len - 1));
        len = len - 1;
    }
    proof {
        let part = bytes@.subrange(0, len as int);
        if len > 0 {
            assert(part.last() == bytes@[len - 1]);
        }
    }
    len
}

/// Where a reader in the midst of `len` bytes stands next.
#[derive(Debug, Clone, Copy, PartialEq, Eq, Structural)]
pub enum Progress {
    /// Behind a section.
    At(usize),
    /// Here, and it gets no further.
    Stopped(usize),
}

/// Where a reader that stands at `from` gets by what it finds there.
pub fn progress(
    found: std::result::Result<Option<usize>, bool>,
    from: usize,
    len: usize,
) -> (next: Progress)
    requires
        from <= len,
    ensures
        next == match found {
            Ok(Some(rest)) => if rest < len - from {
                Progress::At((len - rest) as usize)
            } else {
                Progress::Stopped(from)
            },
            Ok(None) => Progress::Stopped(from),
            Err(true) => Progress::Stopped(from),
            Err(false) => Progress::Stopped(len),
        },
{
    match found {
        Ok(Some(rest)) => {
            if rest < len - from {
                Progress::At(len - rest)
            } else {
                Progress::Stopped(from)
            }
        },
        Ok(None) => Progress::Stopped(from),
        Err(unended) => {
            if unended {
                Progress::Stopped(from)
            } else {
                Progress::Stopped(len)
            }
        },
    }
}

fn count_settled(read: &Vec<u8>) -> (len: usize)
    ensures
        len <= read@.len(),
        read@.subrange(0, len as int) == settled(read@),
{
    let all: usize = count_complete(read);
    let ghost lines = complete_lines(read@);
    let mut from: usize = 0;
    loop
        invariant
            from <= all <= read@.len(),
            lines == read@.subrange(0, all as int),
            lines == complete_lines(read@),
            settled_to(lines, from as int) == settled_to(lines, 0),
        decreases all - from,
    {
        let rest = slice_subrange(read.as_slice(), from, all);
        assert(rest@ =~= lines.subrange(from as int, lines.len() as int));
        match progress(section_in(rest), from, all) {
            Progress::At(next) => {
                from = next;
            },
            Progress::Stopped(end) => {
                assert(settled_to(lines, 0) == end);
                assert(lines.subrange(0, end as int) =~= read@.subrange(0, end as int));
                return end;
            },
        }
    }
}

/// The error about a file of certificates whose reading broke off for the
/// reason `detail`: the first error in what was seen, or else that.
pub open spec fn broken_certificates(
    found: std::result::Result<Seq<Seq<u8>>, Seq<char>>,
    what: Seq<char>,
    detail: Seq<char>,
) -> Seq<char> {
    match found {
        Ok(_) => "cannot parse "@ + what + ": "@ + detail,
        Err(m) => "cannot parse "@ + what + ": "@ + m,
    }
}

/// Reports a file of certificates whose reading broke off, by what was found
/// before.
pub fn report_broken_certificates(
    found: std::result::Result<Vec<Vec<u8>>, String>,
    detail: String,
    description: &str,
    path: &str,
) -> (certificates: Result<Vec<Vec<u8>>>)
    ensures
        certificates matches Err(e) && e@ == ErrorView::Tls(
            broken_certificates(found_view(found), description@, detail@),
        ),
{
    match found {
        Ok(_) => check_certificates(Err(detail), description, path),
        Err(m) => check_certificates(Err(m), description, path),
    }
}

/// The certificates of a file whose reading broke off behind `read`: an error
/// in any case.
pub fn certificates_of_broken(
    read: &Vec<u8>,
    detail: String,
    description: &str,
    path: &str,
) -> (certificates: Result<Vec<Vec<u8>>>)
    ensures
        certificates matches Err(e) && e@ == ErrorView::Tls(
            broken_certificates(pem_certificates(settled(read@)), description@, detail@),
        ),
{
    let len: usize = count_settled(read);
    let found = certificates_in(slice_subrange(read.as_slice(), 0, len));
    report_broken_certificates(found, detail, description, path)
}

/// The client key of a file whose reading broke off for the reason `detail`,
/// by what was found before: the first key counts, and an error before it.
pub open spec fn broken_key(
    found: std::result::Result<Option<Seq<u8>>, Seq<char>>,
    detail: Seq<char>,
) -> std::result::Result<Seq<u8>, Seq<char>> {
    match found {
        Ok(Some(key)) => Ok(key),
        Ok(None) => Err("cannot parse client key: "@ + detail),
        Err(m) => Err("cannot parse client key: "@ + m),
    }
}

/// Takes what was found in a client key file before its reading broke off.
pub fn take_broken_key(
    found: std::result::Result<Option<Vec<u8>>, String>,
    detail: String,
) -> (key: Result<Vec<u8>>)
    ensures
        match (key, broken_key(key_view(found), detail@)) {
            (Ok(k), Ok(expected)) => k@ == expected,
            (Err(e), Err(m)) => e@ == ErrorView::Tls(m),
            _ => false,
        },
{
    match found {
        Ok(Some(key)) => Ok(key),
        Ok(None) => check_client_key(Err(detail)),
        Err(m) => check_client_key(Err(m)),
    }
}

/// The client key of a file whose reading broke off behind `read`.
pub fn key_of_broken(read: &Vec<u8>, detail: String) -> (key: Result<Vec<u8>>)
    ensures
        match (key, broken_key(pem_pkcs8_key(settled(read@)), detail@)) {
            (Ok(k), Ok(expected)) => k@ == expected,
            (Err(e), Err(m)) => e@ == ErrorView::Tls(m),
            _ => false,
        },
{
    let len: usize = count_settled(read);
    let found = first_pkcs8_key_in(slice_subrange(read.as_slice(), 0, len));
    take_broken_key(found, detail)
}

} // verus!
