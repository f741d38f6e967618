use std::time::Duration;

use agent_daemon::agent_id::AgentId;
use agent_daemon::config::DaemonConfig;
use agent_daemon::error::AgentdError;
use agent_daemon::registry::{AgentConfig, Change, Registry};
use agent_daemon::relay::{
    connection_change, consumer_config, consumer_name, consumer_not_bound, consumer_outcome,
    consumer_plan, credentials_unreadable, next_pull, not_connected, pull_fault, startup_changes,
    stream_config, stream_not_created, stream_unavailable, AckPolicy, ConnectionEvent,
    DeliverPolicy, Pull, PullFault, RetentionPolicy, StorageType,
};

fn id(s: &str) -> AgentId {
    AgentId::parse(s).unwrap()
}

fn cfg(s: &str, concurrency: u32, enabled: bool) -> AgentConfig {
    AgentConfig {
        agent_id: id(s),
        handler: "/bin/true".to_string(),
        max_concurrency: concurrency,
        working_directory: None,
        enabled,
    }
}

fn registry(agents: Vec<AgentConfig>) -> Registry {
    let mut r = Registry::empty("/agents.d");
    for a in agents {
        r.register(&a, Ok(())).unwrap();
    }
    r
}

#[test]
fn consumer_name_is_identity_with_prefix() {
    let id = AgentId::parse("coding_main").unwrap();
    assert_eq!(consumer_name(&id), "agent-coding_main");
}

#[test]
fn consumer_config_matches_whitepaper() {
    let id = AgentId::parse("coding_main").unwrap();
    let cfg = consumer_config(&id, 300, 4);
    assert_eq!(cfg.durable_name.as_deref(), Some("agent-coding_main"));
    assert_eq!(cfg.filter_subject, "agent.events.coding_main");
    assert!(matches!(cfg.ack_policy, AckPolicy::Explicit));
    assert!(matches!(cfg.deliver_policy, DeliverPolicy::All));
    assert_eq!(cfg.max_ack_pending, 4);
    assert_eq!(
        Duration::from_secs(cfg.ack_wait_secs),
        Duration::from_secs(300)
    );
}

#[test]
fn the_stream_holds_all_agents_for_a_week() {
    let s = stream_config(&DaemonConfig::default());
    assert_eq!(s.name, "AGENT_EVENTS");
    assert_eq!(s.subjects, vec!["agent.events.>".to_string()]);
    assert_eq!(s.retention, RetentionPolicy::Limits);
    assert_eq!(s.storage, StorageType::File);
    assert_eq!(s.max_age_secs, 7 * 24 * 3600);
    assert_eq!(s.max_message_size, 262144);
    assert_eq!(s.num_replicas, 1);
}

#[test]
fn no_more_is_fetched_than_there_are_free_slots() {
    assert_eq!(next_pull(0), Pull::Sleep { secs: 1 });
    assert_eq!(
        next_pull(3),
        Pull::Fetch {
            max_messages: 3,
            expires_secs: 30,
            cap_secs: 10
        }
    );
}

#[test]
fn added_agents_are_bound_and_logged() {
    let r = registry(vec![cfg("a", 2, true)]);
    let change = Change::Added(cfg("a", 2, true));
    let plan = consumer_plan(&change, &r);
    assert!(!plan.stop);
    assert_eq!(plan.bind, Some(2));
    let o = consumer_outcome(&change, Some(Ok(())));
    assert!(o.start);
    let messages: Vec<&str> = o.log.iter().map(|r| r.message.as_str()).collect();
    assert_eq!(messages, vec!["consumer bound", "agent registered"]);

    let o = consumer_outcome(
        &change,
        Some(Err(AgentdError::Config("stream X unavailable: gone".to_string()))),
    );
    assert!(!o.start);
    assert_eq!(o.log.len(), 1);
    assert_eq!(
        o.log[0].message,
        "consumer bind failed; agent not consumed until next reload: \
         configuration error: stream X unavailable: gone"
    );
}

#[test]
fn enabled_agents_are_bound() {
    let r = registry(vec![cfg("a", 1, true)]);
    let change = Change::Enabled(cfg("a", 1, true));
    assert_eq!(consumer_plan(&change, &r).bind, Some(1));
    let o = consumer_outcome(&change, Some(Ok(())));
    assert!(o.start);
    assert_eq!(o.log.len(), 1);
    assert_eq!(o.log[0].message, "consumer bound");
}

#[test]
fn updated_agents_are_bound_as_they_are_registered_now() {
    let r = registry(vec![cfg("a", 5, true), cfg("b", 5, false)]);
    let plan = consumer_plan(&Change::Updated(cfg("a", 1, true)), &r);
    assert!(plan.stop);
    assert_eq!(plan.bind, Some(5));
    let plan = consumer_plan(&Change::Updated(cfg("b", 1, false)), &r);
    assert!(plan.stop);
    assert_eq!(plan.bind, None);
    let plan = consumer_plan(&Change::Updated(cfg("gone", 1, true)), &r);
    assert_eq!(plan.bind, None);
    let o = consumer_outcome(
        &Change::Updated(cfg("a", 1, true)),
        Some(Err(AgentdError::Config("x".to_string()))),
    );
    assert!(!o.start);
    assert_eq!(o.log[0].message, "agent updated");
    assert!(consumer_outcome(&Change::Updated(cfg("a", 1, true)), Some(Ok(()))).start);
}

#[test]
fn disabled_and_removed_agents_are_stopped() {
    let r = registry(vec![cfg("a", 1, false)]);
    let disabled = Change::Disabled(cfg("a", 1, false));
    let plan = consumer_plan(&disabled, &r);
    assert!(plan.stop && plan.bind.is_none());
    let o = consumer_outcome(&disabled, None);
    assert!(!o.start);
    assert_eq!(o.log[0].message, "agent updated");
    let removed = Change::Removed(id("a"));
    let plan = consumer_plan(&removed, &r);
    assert!(plan.stop && plan.bind.is_none());
    assert_eq!(plan.agent.as_str(), "a");
    assert_eq!(
        consumer_outcome(&removed, None).log[0].message,
        "agent unregistered"
    );
}

#[test]
fn startup_adds_the_enabled_agents() {
    let r = registry(vec![cfg("c", 1, true), cfg("a", 1, true), cfg("b", 1, false)]);
    let changes = startup_changes(&r);
    let ids: Vec<String> = changes
        .iter()
        .map(|c| match c {
            Change::Added(c) => c.agent_id.to_string(),
            other => panic!("unexpected {other:?}"),
        })
        .collect();
    assert_eq!(ids, vec!["a".to_string(), "c".to_string()]);
}

#[test]
fn fetch_faults_are_logged() {
    let (r, sleep) = pull_fault(&id("a"), PullFault::Fetch, "timeout");
    assert_eq!(r.message, "fetch failed: timeout");
    assert_eq!(sleep, Some(1));
    let (r, sleep) = pull_fault(&id("a"), PullFault::Message, "lost");
    assert_eq!(r.message, "message fetch error: lost");
    assert_eq!(sleep, None);
    let (r, sleep) = pull_fault(&id("a"), PullFault::Metadata, "none");
    assert_eq!(r.message, "message without JetStream metadata: none");
    assert_eq!(sleep, None);
}

#[test]
fn connection_changes_set_the_flag() {
    let (up, record) = connection_change(ConnectionEvent::Connected, "nats://x").unwrap();
    assert!(up);
    assert_eq!(record.message, "nats connected");
    let (up, record) = connection_change(ConnectionEvent::Disconnected, "nats://x").unwrap();
    assert!(!up);
    assert_eq!(record.message, "nats disconnected");
    assert!(connection_change(ConnectionEvent::Other, "nats://x").is_none());
}

#[test]
fn failures_name_what_failed() {
    let cases = [
        (
            stream_not_created("S", "no"),
            "configuration error: cannot create stream S: no",
        ),
        (
            stream_unavailable("S", "no"),
            "configuration error: stream S unavailable: no",
        ),
        (
            consumer_not_bound(&id("a"), "no"),
            "configuration error: cannot bind consumer for a: no",
        ),
        (
            credentials_unreadable("/c", "no"),
            "configuration error: cannot read credentials /c: no",
        ),
        (
            not_connected("nats://x", "no"),
            "configuration error: cannot connect to nats://x: no",
        ),
    ];
    for (e, message) in cases {
        assert_eq!(e.to_string(), message);
    }
}
