//! The decisions of the rusbee server: its settings, its authentication and
//! the device a request names.
use vstd::prelude::*;

use crate::config::{IpAddress, ServerConfig};
use crate::device::{has_busid, is_first_with_busid, opt_view, position_of_busid, UsbDevice};
use crate::text::{concat, str_eq};

verus! {

/// How the server authenticates requests.
#[derive(Debug, Clone)]
pub enum ServerAuth {
    Disabled,
    Bearer(String),
}

/// The options of `rusbee server`.
#[derive(Debug, Clone)]
pub struct ServerArgs {
    pub host: Option<IpAddress>,
    pub port: Option<u16>,
    /// Bearer token required for all server requests.
    pub token: Option<String>,
    /// Disable server authentication.
    pub no_auth: bool,
}

/// The server settings after options and configuration are combined.
#[derive(Debug, Clone)]
pub struct ResolvedServerArgs {
    pub host: IpAddress,
    pub port: u16,
    pub token: Option<String>,
    pub no_auth: bool,
}

/// Why the server settings are refused.
#[derive(Debug, Clone, Copy, PartialEq, Eq)]
pub enum ServerError {
    /// A token was given together with `--no-auth`.
    TokenWithNoAuth,
    /// Authentication is on and no token was given.
    TokenRequired,
}

/// The text of a server error.
pub open spec fn server_error_message(e: ServerError) -> Seq<char> {
    match e {
        ServerError::TokenWithNoAuth => "--token and --no-auth cannot be used together"@,
        ServerError::TokenRequired => "server authentication requires a token; pass --token, set [server].token in config, or use --no-auth"@,
    }
}

impl ServerError {
    /// The text of the error (what `Display` shows).
    pub fn message(&self) -> (r: String)
        ensures
            r@ == server_error_message(*self),
    {
        match self {
            ServerError::TokenWithNoAuth => "--token and --no-auth cannot be used together".to_owned(),
            ServerError::TokenRequired => "server authentication requires a token; pass --token, set [server].token in config, or use --no-auth".to_owned(),
        }
    }
}

/// The host of the server section, if any.
pub open spec fn section_host(c: Option<ServerConfig>) -> Option<IpAddress> {
    match c {
        Some(s) => s.host,
        None => None,
    }
}

/// The port of the server section, if any.
pub open spec fn section_port(c: Option<ServerConfig>) -> Option<u16> {
    match c {
        Some(s) => s.port,
        None => None,
    }
}

/// The token of the server section, if any.
pub open spec fn section_token(c: Option<ServerConfig>) -> Option<Seq<char>> {
    match c {
        Some(s) => opt_view(s.token),
        None => None,
    }
}

impl ResolvedServerArgs {
    /// Combines options and the server section: an option wins over the
    /// configuration, which wins over the defaults `127.0.0.1` and port 7878.
    pub fn resolve(args: ServerArgs, server_config: Option<ServerConfig>) -> (r: Self)
        ensures
            r.host == (match args.host {
                Some(h) => h,
                None => match section_host(server_config) {
                    Some(h) => h,
                    None => IpAddress::V4(127, 0, 0, 1),
                },
            }),
            r.port == (match args.port {
                Some(p) => p,
                None => match section_port(server_config) {
                    Some(p) => p,
                    None => 7878u16,
                },
            }),
            opt_view(r.token) == (match opt_view(args.token) {
                Some(t) => Some(t),
                None => section_token(server_config),
            }),
            r.no_auth == args.no_auth,
    {
        let (config_host, config_port, config_token) = match server_config {
            Some(server) => (server.host, server.port, server.token),
            None => (None, None, None),
        };
        let host = match args.host {
            Some(h) => h,
            None => match config_host {
                Some(h) => h,
                None => IpAddress::localhost(),
            },
        };
        let port = match args.port {
            Some(p) => p,
            None => match config_port {
                Some(p) => p,
                None => 7878,
            },
        };
        let token = match args.token {
            Some(t) => Some(t),
            None => config_token,
        };
        ResolvedServerArgs { host, port, token, no_auth: args.no_auth }
    }

    /// The authentication the server applies: none with `--no-auth` (which
    /// excludes a token), otherwise the bearer token, which is then required.
    pub fn auth(&self) -> (r: Result<ServerAuth, ServerError>)
        ensures
            self.no_auth && self.token is Some ==> r == Err::<ServerAuth, ServerError>(
                ServerError::TokenWithNoAuth,
            ),
            self.no_auth && self.token is None ==> r matches Ok(ServerAuth::Disabled),
            !self.no_auth && self.token is None ==> r == Err::<ServerAuth, ServerError>(
                ServerError::TokenRequired,
            ),
            !self.no_auth && self.token is Some ==> r == Ok::<ServerAuth, ServerError>(
                ServerAuth::Bearer(self.token->0),
            ),
    {
        if self.no_auth {
            if self.token.is_some() {
                return Err(ServerError::TokenWithNoAuth);
            }
            return Ok(ServerAuth::Disabled);
        }
        match &self.token {
            None => Err(ServerError::TokenRequired),
            Some(token) => Ok(ServerAuth::Bearer(token.clone())),
        }
    }
}

/// Whether a request with the given `Authorization` header (where it is
/// visible ASCII) is let through.
pub open spec fn spec_is_authorized(auth: ServerAuth, authorization: Option<Seq<char>>) -> bool {
    match auth {
        ServerAuth::Disabled => true,
        ServerAuth::Bearer(token) => authorization == Some("Bearer "@ + token@),
    }
}

/// Whether a request with the given `Authorization` header is let through:
/// always without authentication, and with a bearer token only where the
/// header is exactly `Bearer <token>`.
pub fn is_authorized(auth: &ServerAuth, authorization: Option<&str>) -> (r: bool)
    ensures
        r == spec_is_authorized(
            *auth,
            match authorization {
                Some(h) => Some(h@),
                None => None,
            },
        ),
{
    match auth {
        ServerAuth::Disabled => true,
        ServerAuth::Bearer(token) => match authorization {
            None => false,
            Some(header) => {
                let expected = concat("Bearer ", token.as_str());
                str_eq(header, expected.as_str())
            },
        },
    }
}

/// An error answer of the HTTP API: a status code and a message body.
#[derive(Debug, Clone, PartialEq, Eq)]
pub struct ApiError {
    pub status: u16,
    pub message: String,
}

impl ApiError {
    /// A `404 Not Found` answer.
    pub fn not_found(message: String) -> (r: Self)
        ensures
            r.status == 404,
            r.message == message,
    {
        ApiError { status: 404, message }
    }

    /// A `500 Internal Server Error` answer.
    pub fn internal(message: String) -> (r: Self)
        ensures
            r.status == 500,
            r.message == message,
    {
        ApiError { status: 500, message }
    }
}

/// The message of a request for an unknown busid.
pub open spec fn device_not_found_message(busid: Seq<char>) -> Seq<char> {
    "device "@ + busid + " was not found"@
}

/// `device <busid> was not found`.
pub fn device_not_found(busid: &str) -> (r: String)
    ensures
        r@ == device_not_found_message(busid@),
{
    let a = concat("device ", busid);
    concat(a.as_str(), " was not found")
}

/// The listed device a request names: the first device with `busid`, or a
/// `404` answer when no listed device has it (so `usbip` is never run on a
/// busid that the server did not list).
pub fn find_device(devices: Vec<UsbDevice>, busid: &str) -> (r: Result<UsbDevice, ApiError>)
    ensures
        match r {
            Ok(d) => exists|i: int|
                #![auto]
                is_first_with_busid(devices@, busid@, i) && devices@[i] == d,
            Err(e) => !has_busid(devices@, busid@) && e.status == 404 && e.message@
                == device_not_found_message(busid@),
        },
{
    let mut devices = devices;
    let ghost listed = devices@;
    match position_of_busid(&devices, busid) {
        Some(i) => {
            let d = devices.remove(i);
            assert(is_first_with_busid(listed, busid@, i as int) && listed[i as int] == d);
            Ok(d)
        },
        None => Err(ApiError::not_found(device_not_found(busid))),
    }
}

} // verus!
