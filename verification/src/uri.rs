//! File paths as URIs and back, and fresh identifiers.

use crate::fault::{Failure, FailureView, Fault};
use crate::path;
use crate::text;
use vstd::prelude::*;

verus! {

/// What a text is as a URL: its normal form, or why it is none.
pub uninterp spec fn url_normal(url: Seq<char>) -> Result<Seq<char>, Seq<char>>;

/// The bytes of the file path that a URL names, if it names one.
pub uninterp spec fn url_path(url: Seq<char>) -> Option<Seq<u8>>;

/// The URL of a file.
pub uninterp spec fn file_url_of(path: Seq<char>) -> Option<Seq<char>>;

/// The URL of a directory.
pub uninterp spec fn directory_url_of(path: Seq<char>) -> Option<Seq<char>>;

/// The scheme of a URL.
pub uninterp spec fn url_scheme(url: Seq<char>) -> Option<Seq<char>>;

/// The host of a URL, if it has one.
pub uninterp spec fn url_host(url: Seq<char>) -> Option<Seq<char>>;

/// The user name in a URL; empty if it has none.
pub uninterp spec fn url_username(url: Seq<char>) -> Option<Seq<char>>;

/// The password in a URL, if it has one.
pub uninterp spec fn url_password(url: Seq<char>) -> Option<Seq<char>>;

/// The path of a URL, as it is written there.
pub uninterp spec fn url_path_text(url: Seq<char>) -> Option<Seq<char>>;

/// A URL without its query.
pub uninterp spec fn url_without_query(url: Seq<char>) -> Option<Seq<char>>;

/// A URL without its fragment.
pub uninterp spec fn url_without_fragment(url: Seq<char>) -> Option<Seq<char>>;

/// A URL with another path.
pub uninterp spec fn url_with_path(url: Seq<char>, path: Seq<char>) -> Option<Seq<char>>;

/// `url::Url::parse`: the URL in its normal form, or the wording of the error.
/// Both depend on the text alone.
#[verifier::external_body]
pub(crate) fn parse_url(url: &str) -> (r: Result<String, String>)
    ensures
        match r {
            Ok(normal) => url_normal(url@) == Ok::<Seq<char>, Seq<char>>(normal@),
            Err(error) => url_normal(url@) == Err::<Seq<char>, Seq<char>>(error@),
        },
{
    match url::Url::parse(url) {
        Ok(parsed) => Ok(parsed.into()),
        Err(error) => Err(error.to_string()),
    }
}

/// `url::Url::to_file_path` of a text that is a URL: the bytes of the path, as Unix
/// has paths, if the URL names a local one. They depend on the URL alone.
#[verifier::external_body]
fn path_of_url(url: &str) -> (r: Option<Vec<u8>>)
    ensures
        url_path(url@) == match r {
            Some(path) => Some(path@),
            None => None,
        },
{
    match url::Url::parse(url) {
        Ok(parsed) => match parsed.to_file_path() {
            Ok(path) => Some(path.into_os_string().into_encoded_bytes()),
            Err(()) => None,
        },
        Err(_) => None,
    }
}

/// `url::Url::scheme` of a text that is a URL. It depends on the text alone.
#[verifier::external_body]
pub(crate) fn scheme_of_url(url: &str) -> (r: Option<String>)
    ensures
        text::option_view(r) == url_scheme(url@),
        r is Some <==> url_normal(url@) is Ok,
{
    match url::Url::parse(url) {
        Ok(parsed) => Some(parsed.scheme().to_owned()),
        Err(_) => None,
    }
}

/// `url::Url::host_str` of a text that is a URL. It depends on the text alone.
#[verifier::external_body]
pub(crate) fn host_of_url(url: &str) -> (r: Option<String>)
    ensures
        text::option_view(r) == url_host(url@),
{
    match url::Url::parse(url) {
        Ok(parsed) => parsed.host_str().map(str::to_owned),
        Err(_) => None,
    }
}

/// `url::Url::username` of a text that is a URL. It depends on the text alone.
#[verifier::external_body]
pub(crate) fn username_of_url(url: &str) -> (r: Option<String>)
    ensures
        text::option_view(r) == url_username(url@),
        r is Some <==> url_normal(url@) is Ok,
{
    match url::Url::parse(url) {
        Ok(parsed) => Some(parsed.username().to_owned()),
        Err(_) => None,
    }
}

/// `url::Url::password` of a text that is a URL. It depends on the text alone.
#[verifier::external_body]
pub(crate) fn password_of_url(url: &str) -> (r: Option<String>)
    ensures
        text::option_view(r) == url_password(url@),
{
    match url::Url::parse(url) {
        Ok(parsed) => parsed.password().map(str::to_owned),
        Err(_) => None,
    }
}

/// `url::Url::path` of a text that is a URL. It depends on the text alone.
#[verifier::external_body]
pub(crate) fn path_text_of_url(url: &str) -> (r: Option<String>)
    ensures
        text::option_view(r) == url_path_text(url@),
        r is Some <==> url_normal(url@) is Ok,
{
    match url::Url::parse(url) {
        Ok(parsed) => Some(parsed.path().to_owned()),
        Err(_) => None,
    }
}

/// `url::Url::set_query` with nothing, on a text that is a URL. The result
/// depends on the text alone.
#[verifier::external_body]
pub(crate) fn drop_query(url: &str) -> (r: Option<String>)
    ensures
        text::option_view(r) == url_without_query(url@),
        r is Some <==> url_normal(url@) is Ok,
{
    match url::Url::parse(url) {
        Ok(mut parsed) => {
            parsed.set_query(None);
            Some(parsed.into())
        },
        Err(_) => None,
    }
}

/// `url::Url::set_fragment` with nothing, on a text that is a URL. The result
/// depends on the text alone.
#[verifier::external_body]
pub(crate) fn drop_fragment(url: &str) -> (r: Option<String>)
    ensures
        text::option_view(r) == url_without_fragment(url@),
        r is Some <==> url_normal(url@) is Ok,
{
    match url::Url::parse(url) {
        Ok(mut parsed) => {
            parsed.set_fragment(None);
            Some(parsed.into())
        },
        Err(_) => None,
    }
}

/// Whether a URL is short enough for its path to be replaced: its parts are
/// counted in 32 bits, before and after, and a character of the new path may take
/// up to three bytes for each of its own.
pub open spec fn has_room_for(normal: Seq<char>, path: Seq<char>, new_path: Seq<char>) -> bool {
    &&& text::byte_len(normal) <= u32::MAX
    &&& text::byte_len(normal) - text::byte_len(path) + 3 * text::byte_len(new_path) + 8 <= u32::MAX
}

/// `url::Url::set_path` on a text that is a URL. The result depends on the texts
/// alone.
#[verifier::external_body]
pub(crate) fn replace_path(url: &str, path: &str) -> (r: Option<String>)
    requires
        url_normal(url@) matches Ok(normal) ==> (url_path_text(url@) matches Some(before)
            && has_room_for(normal, before, path@)),
    ensures
        text::option_view(r) == url_with_path(url@, path@),
        r is Some <==> url_normal(url@) is Ok,
{
    match url::Url::parse(url) {
        Ok(mut parsed) => {
            parsed.set_path(path);
            Some(parsed.into())
        },
        Err(_) => None,
    }
}

/// `url::Url::from_file_path`: the URL of an absolute path, none for any other.
/// It depends on the path alone.
#[verifier::external_body]
fn url_of_file(path: &str) -> (r: Option<String>)
    ensures
        text::option_view(r) == file_url_of(path@),
        r is Some <==> path::is_rooted(path@),
{
    match url::Url::from_file_path(path) {
        Ok(url) => Some(url.into()),
        Err(()) => None,
    }
}

/// `url::Url::from_directory_path`: the URL of an absolute path, none for any
/// other. It depends on the path alone.
#[verifier::external_body]
fn url_of_directory(path: &str) -> (r: Option<String>)
    ensures
        text::option_view(r) == directory_url_of(path@),
        r is Some <==> path::is_rooted(path@),
{
    match url::Url::from_directory_path(path) {
        Ok(url) => Some(url.into()),
        Err(()) => None,
    }
}

/// `uuid::Uuid::new_v4` in its usual form of 36 characters. Which identifier it
/// is, chance decides; that no two are the same is not claimed.
#[verifier::external_body]
pub(crate) fn fresh_id() -> (r: String)
    ensures
        r@.len() == 36,
{
    uuid::Uuid::new_v4().to_string()
}

/// The bytes of the file path that a URI names: the URL must be one, and name a
/// local file.
pub open spec fn path_in_uri(uri: Seq<char>, otherwise: Fault) -> Result<Seq<u8>, FailureView> {
    match url_normal(uri) {
        Err(error) => Err(FailureView { fault: Fault::UnreadableUrl, detail: error }),
        Ok(_) => match url_path(uri) {
            Some(path) => Ok(path),
            None => Err(FailureView::plain(otherwise)),
        },
    }
}

/// The path for what parsing a URI and asking for its path gave.
pub fn path_from(
    parsed: Result<String, String>,
    path: Option<Vec<u8>>,
    otherwise: Fault,
) -> (r: Result<Vec<u8>, Failure>)
    ensures
        match (parsed, r) {
            (Err(error), Err(failure)) => failure@ == (FailureView {
                fault: Fault::UnreadableUrl,
                detail: error@,
            }),
            (Err(_), Ok(_)) => false,
            (Ok(_), Ok(found)) => path == Some(found),
            (Ok(_), Err(failure)) => path is None && failure@ == FailureView::plain(otherwise),
        },
{
    match parsed {
        Err(error) => Err(Failure::of(Fault::UnreadableUrl, error.as_str())),
        Ok(_) => match path {
            Some(found) => Ok(found),
            None => Err(Failure::plain(otherwise)),
        },
    }
}

/// The bytes of the file path that a URI names; `otherwise` is the fault of a URL
/// that names none.
pub fn file_path(uri: &str, otherwise: Fault) -> (r: Result<Vec<u8>, Failure>)
    ensures
        match r {
            Ok(path) => path_in_uri(uri@, otherwise) == Ok::<Seq<u8>, FailureView>(path@),
            Err(failure) => path_in_uri(uri@, otherwise) == Err::<Seq<u8>, FailureView>(failure@),
        },
{
    path_from(parse_url(uri), path_of_url(uri), otherwise)
}

/// The URL of a path whose text marks bytes. Such a mark starts with a null
/// character, which a URL has as `%00`; the byte itself is a percent sign and the
/// two digits of its mark.
pub open spec fn unmarked(url: Seq<char>) -> Seq<char>
    decreases url.len(),
{
    if url.len() == 0 {
        Seq::empty()
    } else if url.len() >= 3 && url[0] == '%' && url[1] == '0' && url[2] == '0' {
        seq!['%'] + unmarked(url.skip(3))
    } else {
        seq![url[0]] + unmarked(url.skip(1))
    }
}

/// The URI of a file; none if the path is not absolute.
pub open spec fn file_uri_of(path: Seq<char>) -> Option<Seq<char>> {
    match file_url_of(path) {
        Some(url) => Some(unmarked(url)),
        None => None,
    }
}

/// The URI of a directory; none if the path is not absolute.
pub open spec fn directory_uri_of(path: Seq<char>) -> Option<Seq<char>> {
    match directory_url_of(path) {
        Some(url) => Some(unmarked(url)),
        None => None,
    }
}

fn unmark(url: &str) -> (r: String)
    ensures
        r@ == unmarked(url@),
{
    let chars = text::chars_of(url);
    let mut out = String::new();
    let mut at: usize = 0;
    proof {
        assert(chars@.skip(0) =~= chars@);
        assert(out@ + unmarked(chars@) =~= unmarked(chars@));
    }
    while at < chars.len()
        invariant
            chars@ == url@,
            at <= chars@.len(),
            out@ + unmarked(chars@.skip(at as int)) == unmarked(url@),
        decreases chars@.len() - at,
    {
        let ghost rest = chars@.skip(at as int);
        let ghost before = out@;
        out.push(chars[at]);
        let marked: bool = chars.len() - at >= 3 && chars[at] == '%' && chars[at + 1] == '0'
            && chars[at + 2] == '0';
        let step: usize = if marked {
            3
        } else {
            1
        };
        proof {
            assert(rest[0] == chars@[at as int]);
            if rest.len() >= 3 {
                assert(rest[1] == chars@[at + 1]);
                assert(rest[2] == chars@[at + 2]);
            }
            assert(rest.skip(step as int) =~= chars@.skip(at + step));
            assert(out@ + unmarked(rest.skip(step as int)) =~= before + unmarked(rest));
        }
        at = at + step;
    }
    proof {
        assert(chars@.skip(at as int) =~= Seq::<char>::empty());
        assert(out@ + unmarked(chars@.skip(at as int)) =~= out@);
    }
    out
}

/// The URI of a file. Only an absolute path has one.
pub fn file_uri(path: &str) -> (r: Result<String, Fault>)
    ensures
        match r {
            Ok(uri) => path::is_rooted(path@) && file_uri_of(path@) == Some(uri@),
            Err(fault) => !path::is_rooted(path@) && fault == Fault::InvalidPath,
        },
{
    match url_of_file(path) {
        Some(uri) => Ok(unmark(uri.as_str())),
        None => Err(Fault::InvalidPath),
    }
}

/// The URI of a directory. Only an absolute path has one.
pub fn directory_uri(path: &str) -> (r: Result<String, Fault>)
    ensures
        match r {
            Ok(uri) => path::is_rooted(path@) && directory_uri_of(path@) == Some(uri@),
            Err(fault) => !path::is_rooted(path@) && fault == Fault::InvalidWorkspacePath,
        },
{
    match url_of_directory(path) {
        Some(uri) => Ok(unmark(uri.as_str())),
        None => Err(Fault::InvalidWorkspacePath),
    }
}

/// The path of a URI is that of its URL; a text that is no URL, or one that names no
/// local file, is refused.
pub proof fn law_uris_name_paths(uri: Seq<char>, otherwise: Fault)
    ensures
        url_normal(uri) matches Err(words) ==> path_in_uri(uri, otherwise) == Err::<
            Seq<u8>,
            FailureView,
        >(FailureView { fault: Fault::UnreadableUrl, detail: words }),
        url_normal(uri) is Ok ==> match url_path(uri) {
            Some(path) => path_in_uri(uri, otherwise) == Ok::<Seq<u8>, FailureView>(path),
            None => path_in_uri(uri, otherwise) == Err::<Seq<u8>, FailureView>(
                FailureView::plain(otherwise),
            ),
        },
{
}

/// Only marks of bytes are put back in a URL: all else stays as it stands.
pub proof fn law_unmarked_urls(front: Seq<char>, rest: Seq<char>)
    requires
        !front.contains('%'),
    ensures
        unmarked(front) == front,
        unmarked(front + seq!['%', '0', '0'] + rest) == front + seq!['%'] + unmarked(rest),
        rest.len() > 0 && rest[0] != '0' ==> unmarked(front + seq!['%'] + rest) == front + seq!['%']
            + unmarked(rest),
    decreases front.len(),
{
    if front.len() == 0 {
        assert(unmarked(front) =~= front);
        let a = front + seq!['%', '0', '0'] + rest;
        assert(a[0] == '%' && a[1] == '0' && a[2] == '0');
        assert(a.skip(3) =~= rest);
        assert(front + seq!['%'] + unmarked(rest) =~= seq!['%'] + unmarked(rest));
        let b = front + seq!['%'] + rest;
        assert(b[0] == '%');
        if rest.len() > 0 {
            assert(b[1] == rest[0]);
        }
        assert(b.skip(1) =~= rest);
    } else {
        let tail = front.drop_first();
        assert(front.contains(front[0]));
        assert(!tail.contains('%')) by {
            if tail.contains('%') {
                let i = choose|i: int| 0 <= i < tail.len() && tail[i] == '%';
                assert(front[i + 1] == '%');
            }
        }
        law_unmarked_urls(tail, rest);
        assert(front.skip(1) =~= tail);
        assert(seq![front[0]] + tail =~= front);
        let a = front + seq!['%', '0', '0'] + rest;
        assert(a[0] == front[0]);
        assert(a.skip(1) =~= tail + seq!['%', '0', '0'] + rest);
        assert(unmarked(a) =~= front + seq!['%'] + unmarked(rest));
        let b = front + seq!['%'] + rest;
        assert(b[0] == front[0]);
        assert(b.skip(1) =~= tail + seq!['%'] + rest);
        if rest.len() > 0 && rest[0] != '0' {
            assert(unmarked(b) =~= front + seq!['%'] + unmarked(rest));
        }
    }
}

/// The URI of a file or a directory is its URL, with the bytes that its path marks.
pub proof fn law_paths_have_uris(path: Seq<char>)
    ensures
        file_url_of(path) matches Some(url) ==> file_uri_of(path) == Some(unmarked(url)),
        directory_url_of(path) matches Some(url) ==> directory_uri_of(path) == Some(unmarked(url)),
        file_url_of(path) is None ==> file_uri_of(path) is None,
        directory_url_of(path) is None ==> directory_uri_of(path) is None,
{
}

} // verus!
