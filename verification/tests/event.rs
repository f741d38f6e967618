use agent_daemon::agent_id::AgentId;
use agent_daemon::error::AgentdError;
use agent_daemon::event::{EventEnvelope, ENVELOPE_VERSION};
use serde_json::Value;

const EXAMPLE: &str = r#"{
    "version": 1,
    "event_id": "01J6ZP8R5EF4Y42KABCD123456",
    "agent_id": "coding_main",
    "type": "im.message",
    "created_at": "2026-08-19T12:00:00Z",
    "payload": {"text": "please continue"},
    "metadata": {"source": "matrix", "sender": "@alice:domain.test"}
}"#;

fn text(v: &Value, key: &str) -> Result<String, String> {
    v.get(key)
        .and_then(Value::as_str)
        .map(str::to_string)
        .ok_or_else(|| format!("missing field `{key}`"))
}

fn decode(bytes: &[u8]) -> Result<EventEnvelope, String> {
    let v: Value = serde_json::from_slice(bytes).map_err(|e| e.to_string())?;
    Ok(EventEnvelope {
        version: v
            .get("version")
            .and_then(Value::as_u64)
            .and_then(|n| u32::try_from(n).ok())
            .ok_or("missing field `version`")?,
        event_id: text(&v, "event_id")?,
        agent_id: AgentId::parse(&text(&v, "agent_id")?).map_err(|e| e.to_string())?,
        event_type: text(&v, "type")?,
        created_at: text(&v, "created_at")?,
        payload: v.get("payload").cloned().ok_or("missing field `payload`")?,
        metadata: v.get("metadata").cloned(),
    })
}

fn parse(bytes: &[u8]) -> Result<EventEnvelope, AgentdError> {
    EventEnvelope::parse(decode(bytes))
}

#[test]
fn parses_whitepaper_example() {
    let env = parse(EXAMPLE.as_bytes()).unwrap();
    assert_eq!(env.event_id, "01J6ZP8R5EF4Y42KABCD123456");
    assert_eq!(env.agent_id.to_string(), "coding_main");
    assert_eq!(env.event_type, "im.message");
    assert_eq!(
        env.metadata.as_ref().unwrap()["source"],
        Value::String("matrix".to_string())
    );
}

#[test]
fn unknown_fields_are_accepted() {
    let with_extra = EXAMPLE.replacen(
        "\"version\": 1,",
        "\"version\": 1, \"future_field\": {\"nested\": [1, 2]},",
        1,
    );
    assert!(parse(with_extra.as_bytes()).is_ok());
}

#[test]
fn unsupported_version_is_terminal() {
    let v2 = EXAMPLE.replace("\"version\": 1,", "\"version\": 2,");
    let err = parse(v2.as_bytes()).unwrap_err();
    assert!(err.to_string().contains("unsupported version"));
    assert_eq!(
        err.to_string(),
        "invalid event envelope: unsupported version 2 (only 1)"
    );
}

#[test]
fn missing_event_id_is_terminal() {
    let missing = EXAMPLE.replacen("\"event_id\": \"01J6ZP8R5EF4Y42KABCD123456\",", "", 1);
    assert!(parse(missing.as_bytes()).is_err());
}

#[test]
fn empty_event_id_is_terminal() {
    let empty = EXAMPLE.replace(
        "\"event_id\": \"01J6ZP8R5EF4Y42KABCD123456\"",
        "\"event_id\": \"\"",
    );
    assert!(parse(empty.as_bytes()).is_err());
}

#[test]
fn invalid_agent_id_is_terminal() {
    let bad = EXAMPLE.replace("\"agent_id\": \"coding_main\"", "\"agent_id\": \"Bad Id\"");
    assert!(parse(bad.as_bytes()).is_err());
}

#[test]
fn unparseable_json_is_terminal() {
    assert!(parse(b"{ not json").is_err());
    let e = EventEnvelope::parse(Err("why".to_string())).unwrap_err();
    assert_eq!(
        e.to_string(),
        "invalid event envelope: unparseable JSON: why"
    );
}

#[test]
fn blank_event_id_is_missing() {
    for blank in [" ", "\\t\\n", "\\u00a0", "\\u3000 "] {
        let s = EXAMPLE.replace("01J6ZP8R5EF4Y42KABCD123456", blank);
        assert_eq!(
            parse(s.as_bytes()).unwrap_err().to_string(),
            "invalid event envelope: missing event_id",
            "{blank}"
        );
    }
    // A zero-width space is no whitespace.
    let s = EXAMPLE.replace("01J6ZP8R5EF4Y42KABCD123456", "\\u200b");
    assert!(parse(s.as_bytes()).is_ok());
}

#[test]
fn the_version_is_checked_before_the_event_id() {
    let mut env = decode(EXAMPLE.as_bytes()).unwrap();
    env.version = 0;
    env.event_id = String::new();
    assert!(env.validate().unwrap_err().to_string().contains("version 0"));
    env.version = ENVELOPE_VERSION;
    assert!(env.validate().unwrap_err().to_string().contains("event_id"));
    env.event_id = "e".to_string();
    assert!(env.validate().is_ok());
}
