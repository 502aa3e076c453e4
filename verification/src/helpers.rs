//! Checks on the environment a command runs in.
use vstd::prelude::*;

use crate::address::{parse_result_view, parse_url, parsed_url, UrlParts};

verus! {

/// Why a helper check failed.
#[derive(Debug, Clone, PartialEq, Eq)]
pub enum HelperError {
    /// The process does not run as root.
    NotRoot,
    /// The server address is not a URL; `reason` is what the URL parser reported.
    InvalidServerUrl { reason: String },
    /// The server URL has no host.
    MissingHost,
}

/// The model of a [`HelperError`].
pub enum HelperErrorView {
    NotRoot,
    InvalidServerUrl { reason: Seq<char> },
    MissingHost,
}

impl View for HelperError {
    type V = HelperErrorView;

    open spec fn view(&self) -> HelperErrorView {
        match self {
            HelperError::NotRoot => HelperErrorView::NotRoot,
            HelperError::InvalidServerUrl { reason } => HelperErrorView::InvalidServerUrl { reason: reason@ },
            HelperError::MissingHost => HelperErrorView::MissingHost,
        }
    }
}

/// The text of a helper error (the reason of an invalid URL is its cause).
pub open spec fn helper_error_message(e: HelperErrorView) -> Seq<char> {
    match e {
        HelperErrorView::NotRoot => "usbip operations require sudo/root; rerun rusbee with sudo"@,
        HelperErrorView::InvalidServerUrl { .. } => "server must be a valid http URL"@,
        HelperErrorView::MissingHost => "server URL must include a host"@,
    }
}

impl HelperError {
    /// The text of the error (what `Display` shows).
    pub fn message(&self) -> (r: String)
        ensures
            r@ == helper_error_message(self@),
    {
        match self {
            HelperError::NotRoot => "usbip operations require sudo/root; rerun rusbee with sudo".to_owned(),
            HelperError::InvalidServerUrl { .. } => "server must be a valid http URL".to_owned(),
            HelperError::MissingHost => "server URL must include a host".to_owned(),
        }
    }
}

/// Accepts the effective user id of root only.
pub fn ensure_running_as_root(effective_uid: u32) -> (r: Result<(), HelperError>)
    ensures
        r == (if effective_uid == 0 {
            Ok::<(), HelperError>(())
        } else {
            Err(HelperError::NotRoot)
        }),
{
    if effective_uid == 0 {
        Ok(())
    } else {
        Err(HelperError::NotRoot)
    }
}

/// The host of a server URL, from what `Url::parse` read of it.
pub open spec fn spec_host_of(parsed: Result<(Seq<char>, Option<Seq<char>>), Seq<char>>) -> Result<Seq<char>, HelperErrorView> {
    match parsed {
        Err(reason) => Err(HelperErrorView::InvalidServerUrl { reason }),
        Ok((_, None)) => Err(HelperErrorView::MissingHost),
        Ok((_, Some(host))) => Ok(host),
    }
}

/// The model of a host result.
pub open spec fn host_result_view(r: Result<String, HelperError>) -> Result<Seq<char>, HelperErrorView> {
    match r {
        Ok(s) => Ok(s@),
        Err(e) => Err(e@),
    }
}

/// The host of a parsed server URL.
pub fn host_of(parsed: Result<UrlParts, String>) -> (r: Result<String, HelperError>)
    ensures
        host_result_view(r) == spec_host_of(parse_result_view(parsed)),
{
    match parsed {
        Err(reason) => Err(HelperError::InvalidServerUrl { reason }),
        Ok(p) => match p.host {
            None => Err(HelperError::MissingHost),
            Some(h) => Ok(h),
        },
    }
}

/// The host of the server URL `server`, which the client hands to
/// `usbip attach`.
pub fn server_host(server: &str) -> (r: Result<String, HelperError>)
    ensures
        host_result_view(r) == spec_host_of(parsed_url(server@)),
{
    host_of(parse_url(server))
}

} // verus!
