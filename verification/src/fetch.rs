//! Where content comes from, how a response status is judged, the errors of
//! fetching, and the search address.
use vstd::prelude::*;

use crate::model::local_path_of;
use crate::text::{chars_of, dec, owned, push_decimal, push_str, starts_with, str_starts_with};

verus! {

#[verifier::external_type_specification]
#[verifier::external_body]
pub struct ExIoError(std::io::Error);

#[verifier::external_type_specification]
#[verifier::external_body]
pub struct ExHttpError(reqwest::Error);

/// The text that `std::io::Error`'s `Display` writes for `e`.  It depends on
/// the operating system's message for the error, so nothing is stated of it.
#[verifier::external_body]
pub(crate) fn io_error_text(e: &std::io::Error) -> String {
    e.to_string()
}

/// The text that `reqwest::Error`'s `Display` writes for `e`.  It depends on
/// what the error holds, which is opaque here, so nothing is stated of it.
#[verifier::external_body]
fn http_error_text(e: &reqwest::Error) -> String {
    e.to_string()
}

/// An error while fetching content.
#[derive(Debug)]
pub enum FetchError {
    Io(std::io::Error),
    Http(reqwest::Error),
    Status(u16),
    Parse(String),
}

/// Whether `t` is a description of `e`: its kind, then for a status its
/// code, for a parse error its message, and for an I/O or HTTP error what
/// that error's `Display` writes.
pub open spec fn describes(e: FetchError, t: Seq<char>) -> bool {
    match e {
        FetchError::Io(_) => starts_with(t, "IO error: "@),
        FetchError::Http(_) => starts_with(t, "HTTP error: "@),
        FetchError::Status(code) => t == "HTTP status error: "@ + dec(code as nat),
        FetchError::Parse(s) => t == "Parse error: "@ + s@,
    }
}

impl FetchError {
    /// The text that describes the error.
    pub fn message(&self) -> (r: String)
        ensures
            describes(*self, r@),
    {
        match self {
            FetchError::Io(e) => {
                let mut r = owned("IO error: ");
                let t = io_error_text(e);
                push_str(&mut r, t.as_str());
                assert(r@.take("IO error: "@.len() as int) =~= "IO error: "@);
                r
            },
            FetchError::Http(e) => {
                let mut r = owned("HTTP error: ");
                let t = http_error_text(e);
                push_str(&mut r, t.as_str());
                assert(r@.take("HTTP error: "@.len() as int) =~= "HTTP error: "@);
                r
            },
            FetchError::Status(code) => {
                let mut r = owned("HTTP status error: ");
                push_decimal(&mut r, *code as u64);
                r
            },
            FetchError::Parse(s) => {
                let mut r = owned("Parse error: ");
                push_str(&mut r, s.as_str());
                r
            },
        }
    }
}

/// Whether an HTTP status code is a success (`200..=299`), as
/// `reqwest::StatusCode::is_success` judges it.
pub open spec fn is_success(code: u16) -> bool {
    200 <= code <= 299
}

/// Judges a response status: a success lets the content through, any other
/// code is the error `Status(code)`.
pub fn check_status(code: u16) -> (r: Result<(), FetchError>)
    ensures
        r is Ok <==> is_success(code),
        !is_success(code) ==> (r matches Err(FetchError::Status(c)) && c == code),
{
    if 200 <= code && code <= 299 {
        Ok(())
    } else {
        Err(FetchError::Status(code))
    }
}

/// Where content is read from.
#[derive(Debug)]
pub enum ContentSource {
    /// An address fetched over HTTP(S).
    Http(String),
    /// A local file, by its path.
    File(String),
}

/// Whether an address is fetched over HTTP(S).
pub open spec fn is_web_address(url: Seq<char>) -> bool {
    starts_with(url, "http://"@) || starts_with(url, "https://"@)
}

/// Where the content of `url` comes from: an `http://` or `https://`
/// address is fetched as it is; anything else names a local file, with a
/// leading `file://` removed.
pub fn content_source(url: &str) -> (r: ContentSource)
    ensures
        match r {
            ContentSource::Http(u) => is_web_address(url@) && u@ == url@,
            ContentSource::File(p) => !is_web_address(url@) && p@ == local_path_of(url@),
        },
{
    if str_starts_with(url, "http://") || str_starts_with(url, "https://") {
        ContentSource::Http(owned(url))
    } else {
        ContentSource::File(crate::model::local_path(url))
    }
}

/// The address of a reddit search for `query`.
pub open spec fn search_url(query: Seq<char>) -> Seq<char> {
    "https://www.reddit.com/search/.json?q=("@ + query + ")"@
}

/// The address of a reddit search for `query`.
pub fn build_search_url(query: &str) -> (r: String)
    ensures
        r@ == search_url(query@),
{
    let mut r = owned("https://www.reddit.com/search/.json?q=(");
    push_str(&mut r, query);
    push_str(&mut r, ")");
    r
}


/// The success codes are exactly 200 through 299.
pub proof fn law_success_codes(code: u16)
    ensures
        is_success(code) <==> 200 <= code < 300,
        is_success(200) && is_success(204) && is_success(299),
        !is_success(199) && !is_success(300) && !is_success(404) && !is_success(500),
{
}

/// Addresses beginning with `http://` or `https://` are fetched over HTTP
/// as they are; a `file://` address names the local file after that prefix;
/// any other text is a local path as it stands.
pub proof fn law_content_sources(rest: Seq<char>, other: Seq<char>)
    ensures
        is_web_address("http://"@ + rest),
        is_web_address("https://"@ + rest),
        !is_web_address("file://"@ + rest),
        local_path_of("file://"@ + rest) == rest,
        !starts_with(other, "file://"@) ==> local_path_of(other) == other,
{
    reveal_strlit("http://");
    reveal_strlit("https://");
    reveal_strlit("file://");
    assert(("http://"@ + rest).take(7) =~= "http://"@);
    assert(("https://"@ + rest).take(8) =~= "https://"@);
    assert(("file://"@ + rest).take(7) =~= "file://"@);
    assert(("file://"@ + rest).skip(7) =~= rest);
    if starts_with("file://"@ + rest, "http://"@) {
        assert(("file://"@ + rest).take(7)[0] == 'f');
    }
    if starts_with("file://"@ + rest, "https://"@) {
        assert(("file://"@ + rest).take(8)[0] == 'f');
    }
}

} // verus!
