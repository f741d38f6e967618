use agent_daemon::error::AgentdError;
use agent_daemon::text::{
    absolute, append_decimal, blank, compare, glue, decimal_text, join, same_text, strip_suffix,
    trim, white, Relation,
};

#[test]
fn whitespace_is_what_the_standard_library_says() {
    for u in 0..=0x3100u32 {
        if let Some(c) = char::from_u32(u) {
            assert_eq!(white(c), c.is_whitespace(), "{u:x}");
        }
    }
}

#[test]
fn trimming_is_what_the_standard_library_does() {
    for s in ["", " ", " a ", "\u{3000}x y\n", "a", "\t\r\n"] {
        assert_eq!(trim(s), s.trim());
        assert_eq!(blank(s), s.trim().is_empty());
    }
}

#[test]
fn numerals_are_what_the_standard_library_writes() {
    for n in [0, 9, 10, 42, 1000, u64::MAX] {
        assert_eq!(decimal_text(n), n.to_string());
    }
    let mut s = "n=".to_string();
    append_decimal(&mut s, 107);
    assert_eq!(s, "n=107");
}

#[test]
fn texts_compare_as_the_standard_library_compares() {
    let all = ["", "a", "ab", "b", "a.b", "a-b", "\u{e9}", "\u{10000}", "z"];
    for a in all {
        for b in all {
            let r = compare(a, b);
            assert_eq!(r == Relation::Before, a < b, "{a} {b}");
            assert_eq!(r == Relation::Same, a == b, "{a} {b}");
            assert_eq!(r == Relation::After, a > b, "{a} {b}");
            assert_eq!(same_text(a, b), a == b);
        }
    }
}

#[test]
fn paths_join_as_the_standard_library_joins() {
    for dir in ["", "/", "a", "/a/b", "/a/b/"] {
        let joined = std::path::Path::new(dir).join("c.toml");
        assert_eq!(join(dir, "c.toml"), joined.display().to_string());
        assert_eq!(absolute(dir), std::path::Path::new(dir).is_absolute());
    }
}

#[test]
fn suffixes_are_stripped() {
    assert_eq!(strip_suffix("a.toml", ".toml").as_deref(), Some("a"));
    assert_eq!(strip_suffix(".toml", ".toml").as_deref(), Some(""));
    assert_eq!(strip_suffix("toml", ".toml"), None);
    assert_eq!(glue("a", "b"), "ab");
}

#[test]
fn errors_name_their_kind() {
    let cases = [
        (
            AgentdError::invalid_agent_id("x".to_string()),
            "invalid agent id: x",
        ),
        (
            AgentdError::invalid_envelope("x".to_string()),
            "invalid event envelope: x",
        ),
        (AgentdError::config("x".to_string()), "configuration error: x"),
        (AgentdError::dedup_store("x".to_string()), "dedup store error: x"),
        (AgentdError::relay("x".to_string()), "relay error: x"),
    ];
    for (e, message) in cases {
        assert_eq!(e.to_string(), message);
    }
}
