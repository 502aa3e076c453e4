//! The endpoints of a rusbee server that the HTTP client posts to.
use vstd::prelude::*;

use crate::text::{chars_of, split_char, split_char_exec, string_of};

verus! {

/// The characters of `segments` with one separator counted after each.
pub open spec fn segments_len(segments: Seq<Seq<char>>) -> int
    decreases segments.len(),
{
    if segments.len() == 0 {
        0
    } else {
        segments[0].len() + 1 + segments_len(segments.skip(1))
    }
}

/// Splitting on a character keeps every other character: the pieces and
/// their separators are as long as the text and one more.
pub proof fn lemma_split_len(s: Seq<char>, c: char)
    ensures
        segments_len(split_char(s, c)) == s.len() + 1,
    decreases s.len(),
{
    crate::text::lemma_find_char(s, c);
    match crate::text::find_char(s, c) {
        Some(i) => {
            let parts = split_char(s, c);
            lemma_split_len(s.skip(i + 1), c);
            assert(parts == seq![s.take(i)] + split_char(s.skip(i + 1), c));
            assert(parts.skip(1) =~= split_char(s.skip(i + 1), c));
            assert(parts[0] == s.take(i));
        },
        None => {
            let parts = split_char(s, c);
            assert(parts == seq![s]);
            assert(parts.skip(1) =~= Seq::<Seq<char>>::empty());
            assert(segments_len(parts.skip(1)) == 0);
        },
    }
}

/// The URL that `reqwest::Url::parse` reads from `server`, with its path
/// replaced by `segments` (`path_segments_mut`, `clear`, `extend`) and
/// serialized; `Ok(None)` where that URL cannot be a base, and the text of the
/// parse error where `server` is no URL.
pub uninterp spec fn url_with_path(server: Seq<char>, segments: Seq<Seq<char>>) -> Result<
    Option<Seq<char>>,
    Seq<char>,
>;

/// The model of a [`replace_url_path`] result.
pub open spec fn url_path_view(r: Result<Option<String>, String>) -> Result<Option<Seq<char>>, Seq<char>> {
    match r {
        Ok(Some(url)) => Ok(Some(url@)),
        Ok(None) => Ok(None),
        Err(e) => Err(e@),
    }
}

/// Calls `reqwest::Url::parse` (`url::Url::parse`) on `server`, then
/// `Url::path_segments_mut`, `PathSegmentsMut::clear` and
/// `PathSegmentsMut::extend` with `segments`, and serializes the URL. The
/// contract claims only that the outcome is a function of the arguments,
/// named [`url_with_path`]; how the URL is parsed, percent-encoded and
/// serialized is not stated. The `url` crate unwraps the conversion of the
/// serialization's length to `u32` while it sets the path; the `requires`
/// keeps the input far below that limit (a character of the input becomes at
/// most a few hundred bytes of the serialization).
#[verifier::external_body]
fn replace_url_path(server: &str, segments: &Vec<String>) -> (r: Result<Option<String>, String>)
    requires
        256 * (server@.len() + segments_len(segments@.map_values(|s: String| s@))) <= u32::MAX,
    ensures
        url_path_view(r) == url_with_path(server@, segments@.map_values(|s: String| s@)),
{
    let mut url = match reqwest::Url::parse(server) {
        Ok(url) => url,
        Err(e) => return Err(e.to_string()),
    };
    match url.path_segments_mut() {
        Ok(mut path) => {
            path.clear().extend(segments.iter());
        },
        Err(()) => return Ok(None),
    }
    Ok(Some(String::from(url)))
}

/// Why the URL of an endpoint could not be built.
#[derive(Debug, Clone, PartialEq, Eq)]
pub enum EndpointError {
    /// The server address is not a URL; `reason` is what the URL parser reported.
    InvalidUrl { reason: String },
    /// The server URL cannot be a base, so it has no path to replace.
    CannotBeABase,
}

/// The model of an [`EndpointError`].
pub enum EndpointErrorView {
    InvalidUrl { reason: Seq<char> },
    CannotBeABase,
}

impl View for EndpointError {
    type V = EndpointErrorView;

    open spec fn view(&self) -> EndpointErrorView {
        match self {
            EndpointError::InvalidUrl { reason } => EndpointErrorView::InvalidUrl { reason: reason@ },
            EndpointError::CannotBeABase => EndpointErrorView::CannotBeABase,
        }
    }
}

/// The text of an endpoint error (the reason of an invalid URL is its cause).
pub open spec fn endpoint_error_message(e: EndpointErrorView) -> Seq<char> {
    match e {
        EndpointErrorView::InvalidUrl { .. } => "server must be a valid http URL"@,
        EndpointErrorView::CannotBeABase => "server URL cannot be a base URL"@,
    }
}

impl EndpointError {
    /// The text of the error (what `Display` shows).
    pub fn message(&self) -> (r: String)
        ensures
            r@ == endpoint_error_message(self@),
    {
        match self {
            EndpointError::InvalidUrl { .. } => "server must be a valid http URL".to_owned(),
            EndpointError::CannotBeABase => "server URL cannot be a base URL".to_owned(),
        }
    }
}

/// The endpoint, from what became of the server URL with the new path.
pub open spec fn spec_endpoint(joined: Result<Option<Seq<char>>, Seq<char>>) -> Result<
    Seq<char>,
    EndpointErrorView,
> {
    match joined {
        Err(reason) => Err(EndpointErrorView::InvalidUrl { reason }),
        Ok(None) => Err(EndpointErrorView::CannotBeABase),
        Ok(Some(url)) => Ok(url),
    }
}

/// The model of an endpoint result.
pub open spec fn endpoint_result_view(r: Result<String, EndpointError>) -> Result<Seq<char>, EndpointErrorView> {
    match r {
        Ok(url) => Ok(url@),
        Err(e) => Err(e@),
    }
}

/// The endpoint, from what became of the server URL with the new path.
pub fn endpoint_from(joined: Result<Option<String>, String>) -> (r: Result<String, EndpointError>)
    ensures
        endpoint_result_view(r) == spec_endpoint(url_path_view(joined)),
{
    match joined {
        Err(reason) => Err(EndpointError::InvalidUrl { reason }),
        Ok(None) => Err(EndpointError::CannotBeABase),
        Ok(Some(url)) => Ok(url),
    }
}

/// The segments of an endpoint path: the pieces between its slashes.
pub fn path_segments(path: &str) -> (r: Vec<String>)
    ensures
        r@.map_values(|s: String| s@) == split_char(path@, '/'),
{
    let pieces = split_char_exec(&chars_of(path), '/');
    let mut r: Vec<String> = Vec::new();
    for i in 0..pieces.len()
        invariant
            r@.map_values(|s: String| s@) == pieces@.map_values(|x: Vec<char>| x@).take(i as int),
    {
        let ghost before = r@.map_values(|s: String| s@);
        r.push(string_of(&pieces[i as usize]));
        assert(r@.map_values(|s: String| s@) =~= before.push(pieces@[i as int]@));
        assert(pieces@.map_values(|x: Vec<char>| x@).take(i + 1) =~= pieces@.map_values(
            |x: Vec<char>| x@,
        ).take(i as int).push(pieces@[i as int]@));
    }
    assert(pieces@.map_values(|x: Vec<char>| x@).take(pieces@.len() as int) =~= pieces@.map_values(
        |x: Vec<char>| x@,
    ));
    r
}

/// The URL the client posts to for `path` (such as `device/list`): the
/// server URL with its path replaced by the segments of `path`.
pub fn endpoint(server: &str, path: &str) -> (r: Result<String, EndpointError>)
    requires
        256 * (server@.len() + path@.len() + 1) <= u32::MAX,
    ensures
        endpoint_result_view(r) == spec_endpoint(url_with_path(server@, split_char(path@, '/'))),
{
    let segments = path_segments(path);
    proof {
        lemma_split_len(path@, '/');
    }
    endpoint_from(replace_url_path(server, &segments))
}

} // verus!
