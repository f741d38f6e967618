use agent_daemon::agent_id::AgentId;
use agent_daemon::logging::events;
use agent_daemon::logging::{
    build_filter, choose_filter, dispatch_span, handler_span, Field, FieldValue, Level,
};
use tracing_subscriber::filter::LevelFilter;
use tracing_subscriber::EnvFilter;

fn debug_enabled(directives: &str) -> bool {
    EnvFilter::try_new(directives).unwrap().max_level_hint() >= Some(LevelFilter::DEBUG)
}

fn shown(fields: &[Field]) -> String {
    let parts: Vec<String> = fields
        .iter()
        .map(|f| match &f.value {
            FieldValue::Text(s) => format!("{}={s}", f.name),
            FieldValue::Unsigned(n) => format!("{}={n}", f.name),
            FieldValue::Signed(n) => format!("{}={n}", f.name),
        })
        .collect();
    parts.join(",")
}

#[test]
fn env_filter_overrides_config_level() {
    let f = build_filter(Some("debug"), "info").directives.unwrap();
    assert!(debug_enabled(&f));
}

#[test]
fn config_level_used_when_env_unset() {
    let f = build_filter(None, "info").directives.unwrap();
    assert!(!debug_enabled(&f));
    let f = build_filter(Some("  "), "debug").directives.unwrap();
    assert!(debug_enabled(&f));
}

#[test]
fn invalid_env_falls_back_to_config() {
    let choice = build_filter(Some("===not a filter==="), "info");
    let warning = choice.warning.unwrap();
    assert!(warning.starts_with("agentd: ignoring invalid RUST_LOG=\"===not a filter===\": "));
    assert!(!debug_enabled(&choice.directives.unwrap()));
}

#[test]
fn invalid_config_level_is_an_error() {
    let choice = build_filter(None, "===not a filter===");
    let e = choice.directives.unwrap_err().to_string();
    let cause = EnvFilter::try_new("===not a filter===").unwrap_err();
    assert_eq!(
        e,
        format!(
            "configuration error: invalid log_level filter \"===not a filter===\": {cause}"
        )
    );
    assert!(choice.warning.is_none());
}

#[test]
fn the_override_is_trimmed() {
    let choice = build_filter(Some(" \tdebug \n"), "info");
    assert_eq!(choice.directives.unwrap(), "debug");
    assert!(choice.warning.is_none());
}

#[test]
fn texts_that_the_parser_cannot_take_do_not_parse() {
    let cause = "white space before a directive misplaces its parts";
    for level in [
        " \u{e9}=info",
        "info, \u{e9}=debug",
        " \u{e9}[x]",
        " [\u{e9}]",
        "info, [\u{e9}{a}]",
        "\u{3000}[a]",
    ] {
        let choice = build_filter(None, level);
        assert_eq!(
            choice.directives.unwrap_err().to_string(),
            format!("configuration error: invalid log_level filter {level:?}: {cause}")
        );
    }
    let choice = build_filter(Some(" info, \u{e9}=debug "), "warn");
    assert_eq!(
        choice.warning.unwrap(),
        format!("agentd: ignoring invalid RUST_LOG=\"info, \u{e9}=debug\": {cause}")
    );
    assert_eq!(choice.directives.unwrap(), "warn");
}

#[test]
fn all_other_texts_are_left_to_the_parser() {
    for level in [
        "info, \u{e9}",
        "a, b\u{e9}",
        "  [\u{e9}]",
        "  [\u{e9}]=info",
        "info, [x{\u{e9}=1}]",
        "\u{a0}=\u{e9}",
        " \u{e9}",
        "\u{3000}\u{e9}",
        "\u{e9}=info",
        "info,\u{e9}=debug",
        "\u{e9}[\u{e9}{\u{e9}=\u{e9}}]=debug \u{a0}",
        " info",
        " a=info",
        "warn, debug",
        "",
        " ",
        ",,",
    ] {
        let parsed = EnvFilter::try_new(level);
        match build_filter(None, level).directives {
            Ok(d) => {
                assert!(parsed.is_ok(), "{level:?}");
                assert_eq!(d, level);
            }
            Err(e) => {
                let cause = parsed.unwrap_err();
                assert_eq!(
                    e.to_string(),
                    format!("configuration error: invalid log_level filter {level:?}: {cause}")
                );
            }
        }
    }
    for over in ["info, \u{e9}", "a, b\u{e9}", "x,  [\u{e9}]"] {
        let choice = build_filter(Some(over), "===not a filter===");
        assert_eq!(choice.directives.unwrap(), over);
        assert!(choice.warning.is_none());
    }
}

#[test]
fn no_short_text_breaks_the_parser() {
    let letters = [' ', '\u{e9}', '\u{3000}', 'a', '=', '[', ']', '{', '}', ','];
    let mut texts = vec![String::new()];
    let mut from = 0;
    for _ in 0..4 {
        let to = texts.len();
        for k in from..to {
            for c in letters {
                let mut longer = texts[k].clone();
                longer.push(c);
                texts.push(longer);
            }
        }
        from = to;
    }
    for body in ["[\u{e9}{a=1}]", "a\u{e9}[a]=info", "[a{\u{e9}}]=1"] {
        for blanks in ["", " ", "  ", "   ", "\u{a0}", "\u{3000} "] {
            texts.push(format!("{blanks}{body}"));
        }
    }
    for s in &texts {
        let _ = build_filter(None, s);
    }
}

#[test]
fn the_level_is_not_looked_at_where_the_override_parses() {
    let choice = build_filter(Some("info"), " \u{e9}=info");
    assert_eq!(choice.directives.unwrap(), "info");
    assert!(choice.warning.is_none());
}

#[test]
fn both_may_be_invalid() {
    let choice = choose_filter(
        Some("x".to_string()),
        Some("bad x".to_string()),
        "y",
        Some("bad y".to_string()),
    );
    assert_eq!(
        choice.warning.as_deref(),
        Some("agentd: ignoring invalid RUST_LOG=\"x\": bad x")
    );
    assert_eq!(
        choice.directives.unwrap_err().to_string(),
        "configuration error: invalid log_level filter \"y\": bad y"
    );
    let choice = choose_filter(Some("x".to_string()), None, "y", Some("bad y".to_string()));
    assert_eq!(choice.directives.unwrap(), "x");
}

#[test]
fn dispatch_span_fields_attach_to_nested_events() {
    let agent = AgentId::parse("coding/main").unwrap();
    let span = dispatch_span(&agent, "ev-1", "agent-abc", 42);
    let line = format!(
        "{}[{}] {}",
        span.name,
        shown(&span.fields),
        shown(&events::handler_exited(0, 214).fields)
    );
    assert!(
        line.contains(
            "dispatch[agent_id=coding/main,event_id=ev-1,consumer=agent-abc,stream_sequence=42]"
        ),
        "span fields missing: {line}"
    );
    assert!(
        line.contains("exit_status=0") && line.contains("duration_ms=214"),
        "event fields missing: {line}"
    );
}

#[test]
fn helpers_compile_and_emit() {
    let agent = AgentId::parse("assistant/personal").unwrap();
    let records = vec![
        events::nats_connected("nats://127.0.0.1:4222"),
        events::agent_registered(&agent),
        events::consumer_bound(&agent, "agent-xyz"),
        events::event_received(),
        events::dedup_hit(),
        events::in_flight_duplicate_dropped(),
        events::invalid_event("unsupported version"),
        events::handler_spawned("/bin/true", 1234),
        events::handler_spawn_failed("/bin/true", "no such file"),
        events::ack_success(),
        events::ack_failure("timeout"),
    ];
    assert_eq!(records.len(), 11);
    let lines: Vec<String> = records
        .iter()
        .map(|r| format!("{:?} {} {}", r.level, r.message, shown(&r.fields)))
        .collect();
    assert_eq!(
        lines,
        vec![
            "Info nats connected nats_url=nats://127.0.0.1:4222",
            "Info agent registered agent_id=assistant/personal",
            "Info consumer bound agent_id=assistant/personal,consumer=agent-xyz",
            "Info event received ",
            "Info dedup hit ",
            "Warn in-flight duplicate dropped ",
            "Warn invalid event reason=unsupported version",
            "Info handler spawned handler_path=/bin/true,handler_pid=1234",
            "Warn handler spawn failed handler_path=/bin/true,error=no such file",
            "Info ack succeeded ",
            "Warn ack failed error=timeout",
        ]
    );
}

#[test]
fn the_other_helpers_have_their_fields() {
    let agent = AgentId::parse("a").unwrap();
    assert_eq!(events::nats_disconnected().message, "nats disconnected");
    assert_eq!(events::nats_disconnected().level, Level::Warn);
    assert_eq!(events::agent_updated(&agent).message, "agent updated");
    assert_eq!(
        events::agent_unregistered(&agent).message,
        "agent unregistered"
    );
    assert_eq!(shown(&events::handler_exited(-9, 5).fields), "exit_status=-9,duration_ms=5");
    let span = handler_span("/bin/h", 77);
    assert_eq!(span.name, "handler");
    assert_eq!(shown(&span.fields), "handler_path=/bin/h,handler_pid=77");
}
