//! Document URIs, as text.
//!
//! URIs are parsed and built by the `url` crate (through `lsp_types::Url`);
//! the library keeps each one as the text of its serialization.

use crate::graph::opt_view;
use vstd::prelude::*;

verus! {

/// Does `u` begin the way every `file:` URL that `Url::from_file_path`
/// builds does?
pub open spec fn is_file_uri(u: Seq<char>) -> bool {
    u.len() >= 7 && u.take(7) == "file://"@
}

/// The serialization of the URL that `Url::parse` makes of `s`, or `None`
/// where it refuses `s`.
pub uninterp spec fn url_parse(s: Seq<char>) -> Option<Seq<char>>;

/// `lsp_types::Url::parse`, as text. What URL a text parses to is the `url`
/// crate's own (WHATWG) algorithm; only that the result is a function of the
/// text is stated.
#[verifier::external_body]
pub(crate) fn parse_url(s: &str) -> (r: Option<String>)
    ensures
        opt_view(r) == url_parse(s@),
{
    match lsp_types::Url::parse(s) {
        Ok(u) => Some(u.to_string()),
        Err(_) => None,
    }
}

/// `lsp_types::Url::to_file_path`, as text, on the URL whose serialization
/// is `url` (turned back into a `Url` by `Url::parse`). Which URLs name a
/// local file, and the text of the path, depend on the platform the program
/// is built for, so nothing is stated of the result.
#[verifier::external_body]
fn url_file_path(url: &str) -> (r: Option<String>) {
    match lsp_types::Url::parse(url) {
        Ok(u) => match u.to_file_path() {
            Ok(p) => p.into_os_string().into_string().ok(),
            Err(()) => None,
        },
        Err(_) => None,
    }
}

/// The file path that document URI `uri` names, or `None` where it names
/// none on this platform: a text that is not a URL names no file; which URLs
/// do is `Url::to_file_path`'s to decide.
pub fn uri_to_file_path(uri: &str) -> (r: Option<String>)
    ensures
        url_parse(uri@) is None ==> r is None,
{
    match parse_url(uri) {
        Some(u) => url_file_path(u.as_str()),
        None => None,
    }
}

/// `lsp_types::Url::from_file_path`, as text. Which paths it accepts, and
/// the text of the URL it builds, depend on the platform the program is
/// built for (Unix paths start at `/`, Windows paths at a drive or a UNC
/// share; components are percent-encoded), so neither is stated here; what
/// holds on every platform is that each URL it builds starts `file://`.
#[verifier::external_body]
fn file_path_url(p: &str) -> (r: Option<String>)
    ensures
        r matches Some(u) ==> is_file_uri(u@),
{
    match lsp_types::Url::from_file_path(p) {
        Ok(u) => Some(u.to_string()),
        Err(()) => None,
    }
}

/// The `file:` URI of a path, or `None` where the path is not absolute on
/// this platform.
pub fn path_to_uri(path: &str) -> (r: Option<String>)
    ensures
        r matches Some(u) ==> is_file_uri(u@),
{
    file_path_url(path)
}

} // verus!
