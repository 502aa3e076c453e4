use rusbee::commands::server::{
    find_device, is_authorized, ApiError, ResolvedServerArgs, ServerArgs, ServerAuth, ServerError,
};
use rusbee::config::{IpAddress, ServerConfig};
use rusbee::device::{UsbDevice, UsbDeviceMetadata};

fn device(busid: &str) -> UsbDevice {
    UsbDevice {
        busid: busid.to_string(),
        vendor_id: "1234".to_string(),
        product_id: "5678".to_string(),
        name: "Test USB device".to_string(),
        bound: false,
        attached: false,
        attached_port: None,
        metadata: UsbDeviceMetadata::default(),
    }
}

fn args(token: Option<&str>, no_auth: bool) -> ServerArgs {
    ServerArgs { host: None, port: None, token: token.map(|t| t.to_string()), no_auth }
}

#[test]
fn bearer_auth_accepts_only_the_matching_header() {
    let auth = ServerAuth::Bearer("secret".to_string());
    assert!(is_authorized(&auth, Some("Bearer secret")));
    assert!(!is_authorized(&auth, Some("Bearer wrong")));
    assert!(!is_authorized(&auth, None));
    assert!(!is_authorized(&auth, Some("secret")));
    assert!(is_authorized(&ServerAuth::Disabled, None));
}

#[test]
fn find_device_rejects_unknown_busid() {
    let error = find_device(vec![device("1-2")], "1-2;touch /tmp/pwned").unwrap_err();
    assert_eq!(error.status, 404);
    assert_eq!(error.message, "device 1-2;touch /tmp/pwned was not found");
}

#[test]
fn find_device_returns_the_listed_device() {
    let found = find_device(vec![device("1-1"), device("1-2")], "1-2").unwrap();
    assert_eq!(found.busid, "1-2");
    assert_eq!(ApiError::internal("x".to_string()).status, 500);
}

#[test]
fn server_args_win_over_config_and_defaults() {
    let config = ServerConfig {
        host: Some(IpAddress::V4(0, 0, 0, 0)),
        port: Some(7979),
        token: Some("from-config".to_string()),
    };
    let resolved = ResolvedServerArgs::resolve(args(None, false), Some(config.clone()));
    assert_eq!(resolved.host, IpAddress::V4(0, 0, 0, 0));
    assert_eq!(resolved.port, 7979);
    assert_eq!(resolved.token.as_deref(), Some("from-config"));

    let mut given = args(Some("flag"), false);
    given.port = Some(1);
    let resolved = ResolvedServerArgs::resolve(given, Some(config));
    assert_eq!(resolved.port, 1);
    assert_eq!(resolved.token.as_deref(), Some("flag"));

    let defaults = ResolvedServerArgs::resolve(args(None, true), None);
    assert_eq!(defaults.host, IpAddress::V4(127, 0, 0, 1));
    assert_eq!(defaults.port, 7878);
    assert!(defaults.no_auth);
}

#[test]
fn server_auth_needs_a_token_unless_disabled() {
    let r = ResolvedServerArgs::resolve(args(None, false), None);
    assert_eq!(r.auth().unwrap_err(), ServerError::TokenRequired);
    assert_eq!(
        r.auth().unwrap_err().message(),
        "server authentication requires a token; pass --token, set [server].token in config, or use --no-auth"
    );

    let r = ResolvedServerArgs::resolve(args(Some("t"), true), None);
    assert_eq!(r.auth().unwrap_err().message(), "--token and --no-auth cannot be used together");

    let r = ResolvedServerArgs::resolve(args(None, true), None);
    assert!(matches!(r.auth(), Ok(ServerAuth::Disabled)));

    let r = ResolvedServerArgs::resolve(args(Some("secret"), false), None);
    match r.auth() {
        Ok(ServerAuth::Bearer(token)) => assert_eq!(token, "secret"),
        _ => panic!("expected bearer auth"),
    }
}
