//! URLs of rusbee servers, as the `url` crate (re-exported by `reqwest`) parses them.
use vstd::prelude::*;

verus! {

/// What the library reads of a parsed URL: its scheme and its host.
#[derive(Debug, Clone)]
pub struct UrlParts {
    pub scheme: String,
    pub host: Option<String>,
}

impl View for UrlParts {
    type V = (Seq<char>, Option<Seq<char>>);

    open spec fn view(&self) -> (Seq<char>, Option<Seq<char>>) {
        (
            self.scheme@,
            match self.host {
                Some(h) => Some(h@),
                None => None,
            },
        )
    }
}

/// The scheme and host of the absolute URL that `reqwest::Url::parse` reads
/// from `input`, or the text of the parse error it reports.
pub uninterp spec fn parsed_url(input: Seq<char>) -> Result<(Seq<char>, Option<Seq<char>>), Seq<char>>;

/// The model of a [`parse_url`] result.
pub open spec fn parse_result_view(r: Result<UrlParts, String>) -> Result<(Seq<char>, Option<Seq<char>>), Seq<char>> {
    match r {
        Ok(parts) => Ok(parts@),
        Err(e) => Err(e@),
    }
}

/// Calls `reqwest::Url::parse` (that is, `url::Url::parse`) on `input` and, on
/// success, reads `Url::scheme` and `Url::host_str` of the result; on failure,
/// it keeps the text of the `ParseError`. The contract claims only that the
/// outcome is a function of `input`, named [`parsed_url`]; the URL grammar
/// itself is not stated.
#[verifier::external_body]
pub(crate) fn parse_url(input: &str) -> (r: Result<UrlParts, String>)
    ensures
        parse_result_view(r) == parsed_url(input@),
{
    reqwest::Url::parse(input).map(
        |url| UrlParts { scheme: url.scheme().to_string(), host: url.host_str().map(|h| h.to_string()) },
    ).map_err(|e| e.to_string())
}

} // verus!
