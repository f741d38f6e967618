use agent_daemon::agent_id::{validate_segment, AgentId, MAX_SEGMENTS};

fn message_of(s: &str) -> String {
    AgentId::parse(s).unwrap_err().to_string()
}

#[test]
fn parses_and_encodes_subject() {
    let id = AgentId::parse("coding/main").unwrap();
    assert_eq!(id.subject(), "agent.events.coding.main");
    assert_eq!(id.to_string(), "coding/main");

    let id = AgentId::parse("a").unwrap();
    assert_eq!(id.subject(), "agent.events.a");
}

#[test]
fn accepts_multi_segment_and_allowed_characters() {
    for s in ["assistant/personal", "research/market", "a-b_c/0123-x", "z9"] {
        assert!(AgentId::parse(s).is_ok(), "should accept {s:?}");
    }
}

#[test]
fn rejects_invalid_forms() {
    for s in [
        "",
        "/a",
        "a/",
        "a//b",
        "Coding/main",
        "-abc/x",
        "_abc",
        "a.b/c",
        "a b",
        "a/b c",
        &"x".repeat(64),
    ] {
        assert!(AgentId::parse(s).is_err(), "should reject {s:?}");
    }
}

#[test]
fn rejects_too_many_segments() {
    let id = vec!["s"; MAX_SEGMENTS + 1].join("/");
    assert!(AgentId::parse(&id).is_err());
    assert_eq!(
        message_of(&id),
        "invalid agent id: too many segments (17 > 16)"
    );
    let id = vec!["s"; MAX_SEGMENTS].join("/");
    assert!(AgentId::parse(&id).is_ok());
}

#[test]
fn dotted_and_underscored_ids_are_their_own_subject_tail() {
    for s in ["coding.main", "a.b", "coding_main", "t.agent", "x-1.y_2"] {
        let id = AgentId::parse(s).unwrap();
        assert_eq!(id.subject(), format!("agent.events.{s}"));
        assert_eq!(id.as_str(), s);
    }
}

#[test]
fn subjects_start_with_the_prefix_and_hold_no_slash() {
    for s in ["coding/main", "a/b/c", "a.b.c", "z9"] {
        let subject = AgentId::parse(s).unwrap().subject();
        assert!(subject.starts_with("agent.events."));
        assert!(!subject.contains('/'));
    }
}

#[test]
fn faults_are_told_in_words() {
    assert_eq!(message_of(""), "invalid agent id: empty segment");
    assert_eq!(
        message_of("_abc"),
        "invalid agent id: segment \"_abc\": first character must be [a-z0-9]"
    );
    assert_eq!(
        message_of(&"x".repeat(64)),
        format!(
            "invalid agent id: segment \"{}\": length 64 > 63",
            "x".repeat(64)
        )
    );
    assert_eq!(
        message_of("a b"),
        "invalid agent id: segment \"a b\": character ' ' not allowed"
    );
    // The length is counted in bytes.
    let wide = format!("x{}", "\u{e9}".repeat(32));
    assert_eq!(
        message_of(&wide),
        format!("invalid agent id: segment \"{wide}\": length 65 > 63")
    );
    // What is quoted is escaped.
    assert_eq!(
        message_of("a\tb"),
        "invalid agent id: segment \"a\\tb\": character '\\t' not allowed"
    );
}

#[test]
fn segments_are_checked_one_by_one() {
    assert!(validate_segment("abc-1_2").is_ok());
    assert!(validate_segment(&"x".repeat(63)).is_ok());
    assert!(validate_segment("").is_err());
    assert!(validate_segment("a.b").is_err());
}

#[test]
fn ids_compare_by_their_text() {
    let a = AgentId::parse("a.b").unwrap();
    let b = AgentId::parse("a.c").unwrap();
    assert!(a.same(&a.clone()));
    assert!(!a.same(&b));
    assert_eq!(a.relation(&b), agent_daemon::text::Relation::Before);
    assert_eq!(b.relation(&a), agent_daemon::text::Relation::After);
    assert_eq!(a.relation(&a), agent_daemon::text::Relation::Same);
}
