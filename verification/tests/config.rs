use rusbee::config::{
    available_targets, config_path, resolve_target, validate_address, Config, ConfigError,
    ResolvedTarget, TargetConfig,
};

/// A configuration holding the given targets, as (name, address, token).
fn config_with(targets: &[(&str, &str, Option<&str>)]) -> Config {
    let mut config = Config::new();
    for (name, address, token) in targets {
        config.insert_target(
            name.to_string(),
            TargetConfig { address: address.to_string(), token: token.map(|t| t.to_string()) },
        );
    }
    config
}

#[test]
fn requires_server_or_target_without_config() {
    let config = Config::default();

    let error = resolve_target(&config, None, None, None).unwrap_err();

    assert_eq!(error.message(), "--server or --target is required");
}

#[test]
fn resolves_server_without_config() {
    let config = Config::default();

    let target = resolve_target(&config, None, Some("http://workbench.local:7878"), None).unwrap();

    assert_eq!(
        target,
        ResolvedTarget {
            address: "http://workbench.local:7878".to_string(),
            token: None,
        }
    );
}

#[test]
fn resolves_explicit_target() {
    let config = config_with(&[("lab", "http://10.0.0.5:7878", Some("secret"))]);

    let target = resolve_target(&config, Some("lab"), None, None).unwrap();

    assert_eq!(
        target,
        ResolvedTarget {
            address: "http://10.0.0.5:7878".to_string(),
            token: Some("secret".to_string()),
        }
    );
}

#[test]
fn flags_override_target_fields() {
    let config = config_with(&[("lab", "http://10.0.0.5:7878", Some("secret"))]);

    let target = resolve_target(
        &config,
        Some("lab"),
        Some("http://localhost:9999"),
        Some("override"),
    )
    .unwrap();

    assert_eq!(
        target,
        ResolvedTarget {
            address: "http://localhost:9999".to_string(),
            token: Some("override".to_string()),
        }
    );
}

#[test]
fn auto_selects_one_target() {
    let config = config_with(&[("local", "http://127.0.0.1:7878", None)]);

    let target = resolve_target(&config, None, None, None).unwrap();

    assert_eq!(target.address, "http://127.0.0.1:7878");
}

#[test]
fn rejects_malformed_target_address() {
    let config = config_with(&[("workbench", "workbench.local", None)]);

    let error = resolve_target(&config, Some("workbench"), None, None).unwrap_err();

    assert!(
        error
            .message()
            .contains("target workbench address must be a valid http URL")
    );
}

#[test]
fn target_not_found_lists_available_targets() {
    let config = config_with(&[("workbench", "http://workbench.local:7878", None)]);

    let error = resolve_target(&config, Some("missing"), None, None).unwrap_err();

    assert_eq!(
        error.message(),
        "target missing was not found in config; available targets: workbench"
    );
}

#[test]
fn rejects_ambiguous_targets_without_selection() {
    let config = config_with(&[("local", "http://127.0.0.1:7878", None), ("lab", "http://10.0.0.5:7878", None)]);

    assert!(resolve_target(&config, None, None, None).is_err());
}

#[test]
fn ambiguous_targets_error_names_the_cause() {
    let mut config = Config::new();
    config.insert_target("b".to_string(), TargetConfig { address: "http://b".to_string(), token: None });
    config.insert_target("a".to_string(), TargetConfig { address: "http://a".to_string(), token: None });
    let error = resolve_target(&config, None, None, None).unwrap_err();
    assert_eq!(error, ConfigError::TargetSelectionRequired);
    assert_eq!(error.message(), "target must be selected when multiple targets are configured");
}

#[test]
fn target_names_come_in_order_and_insert_replaces() {
    let mut config = Config::new();
    for name in ["zeta", "alpha", "mid", "alpha"] {
        config.insert_target(
            name.to_string(),
            TargetConfig { address: format!("http://{name}"), token: None },
        );
    }
    config.insert_target(
        "mid".to_string(),
        TargetConfig { address: "http://other".to_string(), token: Some("t".to_string()) },
    );
    assert_eq!(config.target_names(), vec!["alpha", "mid", "zeta"]);
    assert_eq!(config.target_count(), 3);
    assert_eq!(config.get_target("mid").unwrap().address, "http://other");
    assert_eq!(config.get_target("zeta").unwrap().address, "http://zeta");
    assert!(config.get_target("nope").is_none());
    assert_eq!(available_targets(&config), "; available targets: alpha, mid, zeta");
    assert_eq!(available_targets(&Config::new()), "");
}

#[test]
fn not_found_without_targets_has_no_list() {
    let error = resolve_target(&Config::new(), Some("x"), None, None).unwrap_err();
    assert_eq!(error.message(), "target x was not found in config");
}

#[test]
fn empty_server_address_is_rejected() {
    let error = resolve_target(&Config::new(), None, Some(""), None).unwrap_err();
    assert_eq!(error, ConfigError::EmptyAddress { source: "--server".to_string() });
    assert_eq!(error.message(), "--server cannot be empty");
}

#[test]
fn non_http_scheme_is_rejected() {
    let error = resolve_target(&Config::new(), None, Some("ftp://host"), Some("t")).unwrap_err();
    assert_eq!(error.message(), "--server must use http or https");
    assert!(validate_address("x", "https://host:1").is_ok());
    assert_eq!(
        validate_address("x", "not a url").unwrap_err(),
        ConfigError::InvalidUrl {
            source: "x".to_string(),
            reason: "relative URL without a base".to_string()
        }
    );
}

#[test]
fn config_path_prefers_xdg_config_home() {
    assert_eq!(
        config_path(Some("/xdg"), Some("/home/u")).as_deref(),
        Some("/xdg/rusbee/config.toml")
    );
    assert_eq!(
        config_path(Some(""), Some("/home/u/")).as_deref(),
        Some("/home/u/.config/rusbee/config.toml")
    );
    assert_eq!(config_path(None, Some("")), None);
}

#[test]
fn available_targets_lists_names_in_order() {
    let config = config_with(&[
        ("local", "http://127.0.0.1:7878", None),
        ("lab", "http://10.0.0.5:7878", None),
    ]);
    assert_eq!(available_targets(&config), "; available targets: lab, local");
    assert_eq!(available_targets(&Config::default()), "");
}
