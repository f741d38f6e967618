use std::time::{Duration, Instant};

use agent_daemon::agent_id::AgentId;
use agent_daemon::dedup::{directory_error, now_of, store_error, DedupCheck, DedupStore};

fn agent(s: &str) -> AgentId {
    AgentId::parse(s).unwrap()
}

fn pass(time: Duration) {
    let start = Instant::now();
    while start.elapsed() < time {}
}

#[test]
fn mark_then_hit_and_idempotent_remark() {
    let mut s = DedupStore::open_in_memory().unwrap();
    let a = agent("coding.main");
    assert!(!s.is_completed(&a, "e1").unwrap());
    s.mark_completed(&a, "e1").unwrap();
    assert!(s.is_completed(&a, "e1").unwrap());
    // Re-marking is idempotent: still exactly one row.
    s.mark_completed(&a, "e1").unwrap();
    assert_eq!(s.len().unwrap(), 1);
}

#[test]
fn same_event_id_different_agents_do_not_collide() {
    let mut s = DedupStore::open_in_memory().unwrap();
    let a = agent("coding.main");
    let b = agent("assistant.personal");
    s.mark_completed(&a, "reused-id").unwrap();
    assert!(s.is_completed(&a, "reused-id").unwrap());
    assert!(
        !s.is_completed(&b, "reused-id").unwrap(),
        "agent B's event with the same id must not be suppressed"
    );
    s.mark_completed(&b, "reused-id").unwrap();
    assert_eq!(s.len().unwrap(), 2);
}

#[test]
fn ttl_purge_removes_only_expired_rows() {
    let mut s = DedupStore::open_in_memory().unwrap();
    let a = agent("a");
    s.mark_completed(&a, "old").unwrap();

    // Times are whole seconds: with no time to live only events of an earlier
    // second expire.
    pass(Duration::from_millis(1100));
    let purged = s.purge_expired(0).unwrap();
    assert_eq!(purged, 1);
    assert!(s.is_empty().unwrap(), "expired row should be gone");
}

#[test]
fn ttl_purge_keeps_recent_rows() {
    let mut s = DedupStore::open_in_memory().unwrap();
    let a = agent("a");
    s.mark_completed(&a, "recent").unwrap();
    let purged = s.purge_expired(3600).unwrap();
    assert_eq!(purged, 0, "nothing should expire within the ttl");
    assert_eq!(s.len().unwrap(), 1);
}

#[test]
fn expiry_is_exact() {
    let mut s = DedupStore::open_in_memory().unwrap();
    let a = agent("a");
    s.mark_completed_at(&a, "e1", 1000).unwrap();
    s.mark_completed_at(&a, "e2", 1001).unwrap();
    s.mark_completed_at(&a, "e3", 1002).unwrap();
    // Recording again does not renew.
    s.mark_completed_at(&a, "e1", 5000).unwrap();
    assert_eq!(s.purge_expired_at(100, 1101).unwrap(), 1);
    assert!(!s.is_completed(&a, "e1").unwrap());
    assert!(s.is_completed(&a, "e2").unwrap());
    assert!(s.is_completed(&a, "e3").unwrap());
    // A time to live beyond the epoch forgets nothing.
    assert_eq!(s.purge_expired_at(10_000, 5000).unwrap(), 0);
    assert_eq!(s.purge_expired_at(0, 5000).unwrap(), 2);
    assert!(s.is_empty().unwrap());
}

#[test]
fn times_beyond_the_store_are_refused() {
    let mut s = DedupStore::open_in_memory().unwrap();
    let a = agent("a");
    let e = s.mark_completed_at(&a, "e", u64::MAX).unwrap_err();
    assert!(e
        .to_string()
        .starts_with("dedup store error: mark_completed insert failed: "));
    assert!(s.mark_completed_at(&a, "e", i64::MAX as u64).is_ok());
    let e = s.purge_expired_at(0, u64::MAX).unwrap_err();
    assert!(e.to_string().starts_with("dedup store error: purge failed: "));
    assert_eq!(s.len().unwrap(), 1);
}

#[test]
fn hundreds_of_events_are_kept_apart() {
    let mut s = DedupStore::open_in_memory().unwrap();
    let a = agent("race.agent");
    for t in 0..4 {
        for i in 0..100 {
            s.mark_completed(&a, &format!("e-{t}-{i}")).unwrap();
            assert!(s.is_completed(&a, &format!("e-{t}-{i}")).unwrap());
        }
    }
    assert_eq!(s.len().unwrap(), 400);
}

#[test]
fn a_reopened_store_remembers_and_purges() {
    // A database that several connections share, for as long as one is open.
    let db = "file:agentd-reopened?mode=memory&cache=shared";
    let mut s = DedupStore::open(db, 3600).unwrap();
    s.mark_completed(&agent("a"), "e1").unwrap();
    s.mark_completed_at(&agent("a"), "ancient", 1).unwrap();
    let s2 = DedupStore::open(db, 3600).unwrap();
    assert!(s2.is_completed(&agent("a"), "e1").unwrap());
    assert!(!s2.is_completed(&agent("a"), "ancient").unwrap());
    assert_eq!(s2.len().unwrap(), 1);
}

#[test]
fn a_store_that_cannot_be_opened_is_an_error() {
    let e = DedupStore::open("/nonexistent-agentd/dedup.db", 3600).unwrap_err();
    assert!(e
        .to_string()
        .starts_with("dedup store error: cannot open /nonexistent-agentd/dedup.db: "));
}

#[test]
fn a_broken_store_reports_every_operation() {
    let db = "file:agentd-broken?mode=memory&cache=shared";
    let mut s = DedupStore::open(db, 3600).unwrap();
    let other = rusqlite::Connection::open(db).unwrap();
    other.execute_batch("DROP TABLE completed_events").unwrap();
    let a = agent("a");
    let starts = |e: agent_daemon::error::AgentdError, what: &str| {
        assert!(
            e.to_string().starts_with(&format!("dedup store error: {what}")),
            "{e:?}"
        );
    };
    starts(s.is_completed(&a, "e").unwrap_err(), "is_completed lookup failed: ");
    starts(s.mark_completed(&a, "e").unwrap_err(), "mark_completed insert failed: ");
    starts(s.purge_expired(0).unwrap_err(), "purge failed: ");
    starts(s.len().unwrap_err(), "count failed: ");
    starts(s.is_empty().unwrap_err(), "count failed: ");
}

#[test]
fn connections_are_set_up() {
    let conn = rusqlite::Connection::open_in_memory().unwrap();
    conn.execute_batch("CREATE TABLE completed_events (x INTEGER)").unwrap();
    // The table is there already and stays as it is, so the store is broken.
    let s = DedupStore::with_connection(conn).unwrap();
    assert!(s.is_completed(&agent("a"), "e").is_err());
}

#[test]
fn opening_forgets_the_expired() {
    let conn = rusqlite::Connection::open_in_memory().unwrap();
    conn.execute_batch(agent_daemon::dedup::SCHEMA).unwrap();
    conn.execute_batch(
        "INSERT INTO completed_events VALUES ('a', 'old', 899), ('a', 'kept', 900)",
    )
    .unwrap();
    let s = DedupStore::open_connection(conn, 100, 1000).unwrap();
    assert!(!s.is_completed(&agent("a"), "old").unwrap());
    assert!(s.is_completed(&agent("a"), "kept").unwrap());
}

#[test]
fn the_store_serves_the_dispatcher() {
    let mut s = DedupStore::open_in_memory().unwrap();
    let a = agent("a");
    assert!(!DedupCheck::is_completed(&s, &a, "e").unwrap());
    DedupCheck::mark_completed(&mut s, &a, "e").unwrap();
    assert!(DedupCheck::is_completed(&s, &a, "e").unwrap());
}

#[test]
fn clocks_before_the_epoch_count_as_the_epoch() {
    assert_eq!(now_of(None), 0);
    assert_eq!(now_of(Some(17)), 17);
}

#[test]
fn store_errors_name_what_failed() {
    assert_eq!(
        store_error("count failed: ", "why").to_string(),
        "dedup store error: count failed: why"
    );
    assert_eq!(
        directory_error("/data/agentd", "denied").to_string(),
        "dedup store error: cannot create /data/agentd: denied"
    );
}

#[test]
fn a_path_with_a_nul_is_refused() {
    let e = DedupStore::open("agentd\0.db", 3600).unwrap_err();
    assert!(e
        .to_string()
        .starts_with("dedup store error: cannot open agentd\0.db: "));
}

#[test]
fn exactly_the_recorded_events_are_found() {
    let mut s = DedupStore::open_in_memory().unwrap();
    let (a, b) = (agent("a"), agent("b"));
    s.mark_completed_at(&a, "e1", 10).unwrap();
    s.mark_completed_at(&b, "e2", 11).unwrap();
    s.mark_completed_at(&a, "e3", 12).unwrap();
    // Recording again puts nothing off.
    s.mark_completed_at(&a, "e1", 99).unwrap();
    for (id, event, found) in [
        (&a, "e1", true),
        (&a, "e2", false),
        (&a, "e3", true),
        (&b, "e1", false),
        (&b, "e2", true),
    ] {
        assert_eq!(s.is_completed(id, event).unwrap(), found);
    }
    assert_eq!(s.len().unwrap(), 3);
    assert_eq!(s.purge_expired_at(5, 16).unwrap(), 1);
    assert!(!s.is_completed(&a, "e1").unwrap());
}

#[test]
fn a_store_makes_its_table() {
    let db = "file:agentd-table?mode=memory&cache=shared";
    let conn = rusqlite::Connection::open(db).unwrap();
    let _s = DedupStore::with_connection(conn).unwrap();
    // Another connection finds the table.
    let other = rusqlite::Connection::open(db).unwrap();
    let n: i64 = other
        .query_row("SELECT COUNT(*) FROM completed_events", (), |row| row.get(0))
        .unwrap();
    assert_eq!(n, 0);
}
