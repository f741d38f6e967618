use agent_daemon::config::{
    creds_warning, default_config_path, default_config_path_in, user_dir, DaemonConfig,
};
use agent_daemon::files::FileRead;

/// Decodes the keys that the tests use over the defaults.
fn decode(raw: &str) -> DaemonConfig {
    let table: toml::Table = raw.parse().unwrap();
    let mut c = DaemonConfig::default();
    for (key, value) in &table {
        match key.as_str() {
            "nats_url" => c.nats_url = value.as_str().unwrap().to_string(),
            "nats_creds" => c.nats_creds = Some(value.as_str().unwrap().to_string()),
            "ack_wait_secs" => c.ack_wait_secs = value.as_integer().unwrap() as u64,
            other => panic!("unexpected key {other}"),
        }
    }
    c
}

#[test]
fn defaults_match_whitepaper_and_adr_0001() {
    let c = DaemonConfig::default();
    assert_eq!(c.stream_name, "AGENT_EVENTS");
    assert_eq!(c.ack_wait_secs, 300);
    assert_eq!(c.ack_progress_interval_secs, 90);
    assert_eq!(c.slow_handler_warn_secs, 3600);
    assert_eq!(c.max_event_bytes, 256 * 1024);
    assert!(c.dedup_ttl_days > 7, "dedup retention must exceed MaxAge");
}

#[test]
fn toml_overrides_apply_and_defaults_fill_gaps() {
    let raw = r#"
        nats_url = "nats://relay.internal:4222"
        nats_creds = "/etc/agentd/relay.creds"
        ack_wait_secs = 120
    "#;
    let c = decode(raw);
    assert_eq!(c.nats_url, "nats://relay.internal:4222");
    assert_eq!(c.nats_creds.as_deref(), Some("/etc/agentd/relay.creds"));
    assert_eq!(c.ack_wait_secs, 120);
    assert_eq!(c.stream_name, "AGENT_EVENTS");
    assert_eq!(c.ack_progress_interval_secs, 90);
    c.validate().unwrap();
}

#[test]
fn agents_dir_resolves_explicit_or_xdg_default() {
    let explicit = DaemonConfig {
        agents_dir: Some("/opt/agents.d".to_string()),
        ..DaemonConfig::default()
    };
    assert_eq!(explicit.resolved_agents_dir().unwrap(), "/opt/agents.d");

    let unset = DaemonConfig::default();
    let resolved = unset.resolved_agents_dir().unwrap();
    assert!(
        resolved.ends_with("agentd/agents.d"),
        "expected an agentd/agents.d suffix, got {resolved:?}"
    );
    // The directory is the one that the user's configuration is in.
    let base = dirs::config_dir().map(|p| p.display().to_string());
    assert_eq!(resolved, unset.agents_dir_in(base));
}

#[test]
fn progress_interval_must_be_shorter_than_ack_wait() {
    let c = decode("ack_wait_secs = 60");
    assert!(c.validate().is_err());
    assert_eq!(
        c.validate().unwrap_err().to_string(),
        "configuration error: ack_progress_interval_secs must be < ack_wait_secs"
    );
    let c = decode("ack_wait_secs = 90");
    assert!(c.validate().is_err());
    let c = decode("ack_wait_secs = 91");
    assert!(c.validate().is_ok());
}

#[test]
fn dedup_path_resolves_explicit_or_xdg_default() {
    let explicit = DaemonConfig {
        dedup_path: Some("/var/lib/agentd/dedup.db".to_string()),
        ..DaemonConfig::default()
    };
    assert_eq!(explicit.resolved_dedup_path().unwrap(), "/var/lib/agentd/dedup.db");

    let unset = DaemonConfig::default();
    let resolved = unset.resolved_dedup_path().unwrap();
    assert!(
        resolved.ends_with("agentd/dedup.db"),
        "expected an agentd/dedup.db suffix, got {resolved:?}"
    );
    let base = dirs::data_dir().map(|p| p.display().to_string());
    assert_eq!(resolved, unset.dedup_path_in(base));
}

#[test]
fn dedup_ttl_derives_from_days() {
    let c = DaemonConfig::default();
    assert_eq!(
        std::time::Duration::from_secs(c.dedup_ttl()),
        std::time::Duration::from_secs(14 * 24 * 3600)
    );
}

#[test]
fn paths_are_below_the_given_base() {
    let c = DaemonConfig::default();
    assert_eq!(
        c.agents_dir_in(Some("/home/u/.config".to_string())),
        "/home/u/.config/agentd/agents.d"
    );
    assert_eq!(c.agents_dir_in(Some("/".to_string())), "/agentd/agents.d");
    assert_eq!(c.agents_dir_in(None), "agentd/agents.d");
    assert_eq!(
        c.dedup_path_in(Some("/data".to_string())),
        "/data/agentd/dedup.db"
    );
    assert_eq!(
        default_config_path_in(Some("/cfg".to_string())),
        "/cfg/agentd/agentd.toml"
    );
    assert!(default_config_path().unwrap().ends_with("agentd/agentd.toml"));
}

#[test]
fn the_socket_falls_back_with_a_warning() {
    let c = DaemonConfig::default();
    let s = c.socket_in(Some("/run/user/1".to_string()), Some("/data".to_string()));
    assert_eq!(s.path, "/run/user/1/agentd/control.sock");
    assert!(s.warning.is_none());
    let s = c.socket_in(None, Some("/data".to_string()));
    assert_eq!(s.path, "/data/agentd/control.sock");
    assert_eq!(
        s.warning.as_deref(),
        Some("no runtime directory; control socket falls back to /data/agentd/control.sock")
    );
    let explicit = DaemonConfig {
        control_socket: Some("/tmp/x.sock".to_string()),
        ..DaemonConfig::default()
    };
    let s = explicit.socket_in(None, None);
    assert_eq!(s.path, "/tmp/x.sock");
    assert!(s.warning.is_none());
    assert_eq!(explicit.resolved_socket().unwrap().path, "/tmp/x.sock");
    assert!(c.resolved_socket().unwrap().path.ends_with("agentd/control.sock"));
    let runtime = dirs::runtime_dir().map(|p| p.display().to_string());
    let data = dirs::data_dir().map(|p| p.display().to_string());
    assert_eq!(c.resolved_socket().unwrap().path, c.socket_in(runtime, data).path);
}

#[test]
fn every_bad_value_has_its_message() {
    let base = DaemonConfig::default;
    let cases = [
        (
            DaemonConfig {
                dedup_ttl_days: 0,
                ..base()
            },
            "configuration error: dedup_ttl_days must be > 0",
        ),
        (
            DaemonConfig {
                max_event_bytes: 0,
                ..base()
            },
            "configuration error: max_event_bytes must be > 0",
        ),
        (
            DaemonConfig {
                max_event_bytes: 1 << 31,
                ..base()
            },
            "configuration error: max_event_bytes must be <= 2147483647",
        ),
    ];
    for (c, message) in cases {
        assert_eq!(c.validate().unwrap_err().to_string(), message);
    }
    let largest = DaemonConfig {
        max_event_bytes: i32::MAX as u64,
        ..base()
    };
    assert!(largest.validate().is_ok());
}

#[test]
fn loading_reports_what_went_wrong() {
    let e = DaemonConfig::load("/x.toml", FileRead::Unreadable("gone".to_string())).unwrap_err();
    assert_eq!(e.to_string(), "configuration error: cannot read /x.toml: gone");
    let e = DaemonConfig::load("/x.toml", FileRead::Malformed("bad".to_string())).unwrap_err();
    assert_eq!(
        e.to_string(),
        "configuration error: invalid config /x.toml: bad"
    );
    let invalid = DaemonConfig {
        dedup_ttl_days: 0,
        ..DaemonConfig::default()
    };
    assert!(DaemonConfig::load("/x.toml", FileRead::Parsed(invalid)).is_err());
    let c = DaemonConfig::load("/x.toml", FileRead::Parsed(DaemonConfig::default())).unwrap();
    assert_eq!(c.nats_url, "nats://127.0.0.1:4222");
    assert_eq!(c.log_level, "info");
}

#[test]
fn open_credentials_are_warned_of() {
    assert!(creds_warning("/c", 0o600).is_none());
    assert!(creds_warning("/c", 0o100600).is_none());
    assert_eq!(
        creds_warning("/c", 0o640).as_deref(),
        Some("credentials file /c is accessible by others; it should have mode 0600")
    );
    assert!(creds_warning("/c", 0o604).is_some());
}

#[test]
fn a_directory_whose_path_is_not_text_is_an_error() {
    assert_eq!(user_dir(None).unwrap(), None);
    let found = user_dir(Some(Ok("/home/u/.config".to_string()))).unwrap();
    assert_eq!(found.as_deref(), Some("/home/u/.config"));
    assert_eq!(
        user_dir(Some(Err("/home/\u{fffd}".to_string()))).unwrap_err().to_string(),
        "configuration error: path is not valid UTF-8: /home/\u{fffd}"
    );
}
