use rusbee::cli::{choose_client_target, effective_log_level, GlobalOpts, LogLevel, OutputFormat, TargetChoice};
use rusbee::config::{Config, TargetConfig};
use rusbee::helpers::{ensure_running_as_root, server_host, HelperError};
use rusbee::text::{chars_of, lines_exec, parse_u16_exec, u16_to_string};

#[test]
fn root_is_required() {
    assert!(ensure_running_as_root(0).is_ok());
    let error = ensure_running_as_root(1000).unwrap_err();
    assert_eq!(error, HelperError::NotRoot);
    assert_eq!(error.message(), "usbip operations require sudo/root; rerun rusbee with sudo");
}

#[test]
fn server_host_reads_the_url_host() {
    assert_eq!(server_host("http://workbench.local:7878").unwrap(), "workbench.local");
    assert_eq!(server_host("https://10.0.0.5").unwrap(), "10.0.0.5");
    let error = server_host("workbench.local").unwrap_err();
    assert_eq!(
        error,
        HelperError::InvalidServerUrl { reason: "relative URL without a base".to_string() }
    );
    assert_eq!(error.message(), "server must be a valid http URL");
    assert_eq!(server_host("unix:/run/x").unwrap_err(), HelperError::MissingHost);
    assert_eq!(HelperError::MissingHost.message(), "server URL must include a host");
}

fn opts(target: Option<&str>) -> GlobalOpts {
    GlobalOpts {
        server: None,
        target: target.map(|t| t.to_string()),
        token: None,
        log_level: None,
        output: OutputFormat::default(),
    }
}

#[test]
fn client_target_choice() {
    let mut config = Config::new();
    assert!(matches!(choose_client_target(&opts(None), &config), TargetChoice::Unnamed));
    config.insert_target("b".to_string(), TargetConfig { address: "http://b".to_string(), token: None });
    assert!(matches!(choose_client_target(&opts(None), &config), TargetChoice::Unnamed));
    config.insert_target("a".to_string(), TargetConfig { address: "http://a".to_string(), token: None });
    match choose_client_target(&opts(None), &config) {
        TargetChoice::Prompt(names) => assert_eq!(names, vec!["a", "b"]),
        _ => panic!("expected a prompt"),
    }
    match choose_client_target(&opts(Some("b")), &config) {
        TargetChoice::Named(name) => assert_eq!(name, "b"),
        _ => panic!("expected the named target"),
    }
    assert_eq!(effective_log_level(&opts(None)), LogLevel::Info);
    assert_eq!(OutputFormat::default(), OutputFormat::Table);
}

#[test]
fn lines_follow_str_lines() {
    for text in ["a\nb", "a\r\nb\n", "", "\n", "a\r", "x\n\ny", "tail\r\n"] {
        let got: Vec<String> = lines_exec(&chars_of(text)).iter().map(|l| l.iter().collect()).collect();
        let expected: Vec<String> = text.lines().map(|l| l.to_string()).collect();
        assert_eq!(got, expected, "lines of {text:?}");
    }
}

#[test]
fn u16_parse_follows_from_str() {
    for text in ["0", "+7", "65535", "65536", "", "+", "-1", "12a", "007"] {
        assert_eq!(parse_u16_exec(&chars_of(text)), text.parse::<u16>().ok(), "parse of {text:?}");
    }
    for n in [0u16, 9, 10, 4057, 65535] {
        assert_eq!(u16_to_string(n), n.to_string());
        assert_eq!(parse_u16_exec(&chars_of(&u16_to_string(n))), Some(n));
    }
    assert_eq!(rusbee::text::concat("ab", "cd"), "abcd");
}
