//! Laws of the store, told by its events and their times: what each operation
//! finds, puts in and takes out.

use vstd::prelude::*;

use crate::agent_id::AgentId;
use crate::dedup;
use crate::dedup::DedupStore;
use crate::error::AgentdError;
use crate::text;

verus! {

/// A time is the clock's exactly where the clock gives so many seconds, or
/// stands before the epoch and the time is the epoch.
pub proof fn lemma_clock_time(t: u64)
    ensures
        dedup::is_clock_time(t) <==> dedup::clock_gives(Some(t)) || (t == 0 && dedup::clock_gives(
            None,
        )),
{
}

/// The time to go by is what the clock gives, in its seconds.
pub proof fn lemma_now(clock: Option<u64>, now: u64)
    requires
        call_ensures(dedup::now_of, (clock,), now),
    ensures
        clock is Some ==> now == clock->0,
        clock is None ==> now == 0,
{
}

/// A lookup finds an event of an agent exactly where the store has it under
/// both.
pub proof fn lemma_lookup(
    store: DedupStore,
    agent: AgentId,
    event: &str,
    r: Result<bool, AgentdError>,
)
    requires
        store.private(),
        forall|i: int| 0 <= i < event@.len() ==> #[trigger] event@[i] != '\0',
        call_ensures(DedupStore::is_completed, (&store, &agent, event), r),
    ensures
        r is Ok ==> (r->Ok_0 <==> store@.dom().contains((agent@, event@))),
        r is Err ==> r->Err_0 is DedupStore,
{
    dedup::lemma_comparable(event@);
}

/// Recording an event at a time puts it in with that time, unless it is in
/// already; no other event is touched. Where it fails it was made or not made.
pub proof fn lemma_recorded_at(
    store: &mut DedupStore,
    agent: AgentId,
    event: &str,
    now: u64,
    r: Result<(), AgentdError>,
    key: (Seq<char>, Seq<char>),
)
    requires
        old(store).private(),
        forall|i: int| 0 <= i < event@.len() ==> #[trigger] event@[i] != '\0',
        call_ensures(DedupStore::mark_completed_at, (store, &agent, event, now), r),
    ensures
        final(store).private(),
        final(store).path() == old(store).path(),
        r is Ok ==> final(store)@.dom().contains((agent@, event@)),
        r is Ok && !old(store)@.dom().contains((agent@, event@)) ==> final(store)@[(agent@, event@)]
            == now,
        key.0 != agent@ || key.1 != event@ ==> final(store)@.dom().contains(key) == old(store)@.dom().contains(key),
        old(store)@.dom().contains(key) ==> final(store)@.dom().contains(key) && final(store)@[key]
            == old(store)@[key],
        now > i64::MAX ==> r is Err,
{
    dedup::lemma_comparable(event@);
    dedup::lemma_recorded_rows(old(store)@, agent@, event@, now as int, key);
    dedup::lemma_recorded_rows(old(store)@, agent@, event@, now as int, (agent@, event@));
}

/// Recording an event records it at the time of the clock.
pub proof fn lemma_recorded(
    store: &mut DedupStore,
    agent: AgentId,
    event: &str,
    r: Result<(), AgentdError>,
    key: (Seq<char>, Seq<char>),
)
    requires
        old(store).private(),
        forall|i: int| 0 <= i < event@.len() ==> #[trigger] event@[i] != '\0',
        call_ensures(DedupStore::mark_completed, (store, &agent, event), r),
    ensures
        final(store).private(),
        r is Ok ==> final(store)@.dom().contains((agent@, event@)),
        r is Ok && !old(store)@.dom().contains((agent@, event@)) ==> exists|t: u64|
            #[trigger] dedup::is_clock_time(t) && final(store)@[(agent@, event@)] == t,
        key.0 != agent@ || key.1 != event@ ==> final(store)@.dom().contains(key) == old(store)@.dom().contains(key),
        old(store)@.dom().contains(key) ==> final(store)@.dom().contains(key) && final(store)@[key]
            == old(store)@[key],
{
    dedup::lemma_comparable(event@);
}

/// Forgetting at a time takes exactly the events that were recorded more than
/// the time to live before it, both in seconds, and says how many they were.
pub proof fn lemma_purged_at(
    store: &mut DedupStore,
    ttl: u64,
    now: u64,
    r: Result<u64, AgentdError>,
    key: (Seq<char>, Seq<char>),
)
    requires
        old(store).private(),
        old(store)@.dom().contains(key) ==> old(store)@[key] >= 0,
        call_ensures(DedupStore::purge_expired_at, (store, ttl, now), r),
    ensures
        final(store).private(),
        final(store).path() == old(store).path(),
        r is Ok ==> (final(store)@.dom().contains(key) <==> old(store)@.dom().contains(key) && now
            <= old(store)@[key] + ttl),
        final(store)@.dom().contains(key) ==> old(store)@.dom().contains(key) && final(store)@[key]
            == old(store)@[key],
        old(store)@.dom().contains(key) && now <= old(store)@[key] + ttl ==> final(store)@.dom().contains(key),
        r is Ok && old(store)@.dom().finite() && old(store)@.dom().len() <= usize::MAX
            ==> final(store)@.dom().len() + r->Ok_0 == old(store)@.dom().len(),
{
    dedup::lemma_forgotten_after_its_time(old(store)@, now, ttl, key);
    if r is Ok && old(store)@.dom().finite() && old(store)@.dom().len() <= usize::MAX {
        dedup::lemma_purge_counts(
            old(store)@,
            dedup::cutoff_of(now, ttl),
            r->Ok_0,
            final(store)@,
        );
    }
}

/// Forgetting goes by the clock: an event goes only where the clock gives a time
/// more than the time to live after its recording.
pub proof fn lemma_purged(
    store: &mut DedupStore,
    ttl: u64,
    r: Result<u64, AgentdError>,
    key: (Seq<char>, Seq<char>),
)
    requires
        old(store).private(),
        old(store)@.dom().contains(key),
        old(store)@[key] >= 0,
        call_ensures(DedupStore::purge_expired, (store, ttl), r),
    ensures
        final(store).private(),
        !final(store)@.dom().contains(key) ==> exists|now: u64|
            #[trigger] dedup::is_clock_time(now) && now > old(store)@[key] + ttl,
        r is Ok && final(store)@.dom().contains(key) ==> exists|now: u64|
            #[trigger] dedup::is_clock_time(now) && now <= old(store)@[key] + ttl,
        final(store)@.dom().contains(key) ==> final(store)@[key] == old(store)@[key],
{
    let now = choose|now: u64|
        dedup::is_clock_time(now) && #[trigger] dedup::purges_to(
            old(store)@,
            dedup::cutoff_of(now, ttl),
            r,
            final(store)@,
        );
    dedup::lemma_forgotten_after_its_time(old(store)@, now, ttl, key);
}

/// The number of events is that of the different ones, and a store is empty
/// where it has none.
pub proof fn lemma_counted(
    store: DedupStore,
    n: Result<u64, AgentdError>,
    e: Result<bool, AgentdError>,
)
    requires
        store.private(),
        call_ensures(DedupStore::len, (&store,), n),
        call_ensures(DedupStore::is_empty, (&store,), e),
    ensures
        n is Ok ==> store@.dom().finite() && n->Ok_0 == store@.dom().len(),
        e is Ok ==> (e->Ok_0 <==> forall|key: (Seq<char>, Seq<char>)|
            !#[trigger] store@.dom().contains(key)),
        n is Ok && e is Ok ==> (e->Ok_0 <==> n->Ok_0 == 0),
{
    if e is Ok && n is Ok {
        if e->Ok_0 {
            assert(store@.dom() =~= Set::empty());
        } else if n->Ok_0 == 0 {
            assert(store@.dom() =~= Set::empty());
            assert(store@ =~= dedup::no_rows());
        }
    }
    if e is Ok && (forall|key: (Seq<char>, Seq<char>)| !#[trigger] store@.dom().contains(key)) {
        assert(store@ =~= dedup::no_rows());
    }
}

/// A fresh store in memory has nothing in it.
pub proof fn lemma_fresh(r: Result<DedupStore, AgentdError>)
    requires
        call_ensures(DedupStore::open_in_memory, (), r),
    ensures
        r is Ok ==> r->Ok_0.private() && r->Ok_0.set_up() && forall|key: (Seq<char>, Seq<char>)|
            !#[trigger] r->Ok_0@.dom().contains(key),
        r is Err ==> r->Err_0 is DedupStore,
{
}

/// A store that is opened keeps what is not older than the time to live, as it
/// was recorded, and nothing else; it syncs every record to the disk, waits for
/// a busy database and has its table.
pub proof fn lemma_opened(
    conn: rusqlite::Connection,
    ttl: u64,
    now: u64,
    r: Result<DedupStore, AgentdError>,
    key: (Seq<char>, Seq<char>),
)
    requires
        dedup::is_private(conn),
        dedup::completed_rows(conn).dom().contains(key) ==> dedup::completed_rows(conn)[key] >= 0,
        call_ensures(DedupStore::open_connection, (conn, ttl, now), r),
    ensures
        r is Ok ==> (r->Ok_0@.dom().contains(key) <==> dedup::completed_rows(conn).dom().contains(
            key,
        ) && now <= dedup::completed_rows(conn)[key] + ttl),
        r is Ok && r->Ok_0@.dom().contains(key) ==> r->Ok_0@[key] == dedup::completed_rows(
            conn,
        )[key],
        r is Ok ==> dedup::synchronous_of(r->Ok_0.connection()) == "FULL"@,
        r is Ok ==> dedup::journal_mode_asked(r->Ok_0.connection()) == "WAL"@,
        r is Ok ==> dedup::busy_timeout_of(r->Ok_0.connection()) == 5000,
        r is Ok ==> dedup::has_table(r->Ok_0.connection()),
        r is Err ==> r->Err_0 is DedupStore,
{
    dedup::lemma_forgotten_after_its_time(dedup::completed_rows(conn), now, ttl, key);
}

/// A store in a file is that of the file, set up as any.
pub proof fn lemma_opened_file(path: &str, ttl: u64, r: Result<DedupStore, AgentdError>)
    requires
        call_ensures(DedupStore::open, (path, ttl), r),
    ensures
        r is Ok ==> r->Ok_0.path() == path@,
        r is Ok ==> dedup::synchronous_of(r->Ok_0.connection()) == "FULL"@,
        r is Ok ==> dedup::busy_timeout_of(r->Ok_0.connection()) == 5000,
        r is Ok ==> dedup::has_table(r->Ok_0.connection()),
        r is Err ==> r->Err_0 is DedupStore,
        path@.contains('\0') ==> r is Err,
        r is Ok ==> exists|conn: rusqlite::Connection, now: u64|
            #![trigger dedup::opened_path(conn), dedup::is_clock_time(now)]
            dedup::opened_path(conn) == path@ && dedup::is_clock_time(now) && (dedup::is_private(
                conn,
            ) ==> forall|key: (Seq<char>, Seq<char>)|
                dedup::completed_rows(conn).dom().contains(key) && dedup::completed_rows(conn)[key]
                    >= 0 && now <= dedup::completed_rows(conn)[key] + ttl
                    ==> #[trigger] r->Ok_0@.dom().contains(key)),
{
    if r is Ok {
        let (conn, now) = choose|conn: rusqlite::Connection, now: u64|
            #[trigger] dedup::opens_to(conn, ttl, now, r) && dedup::opened_path(conn) == path@
                && dedup::is_clock_time(now);
        assert(dedup::opened_path(conn) == path@ && dedup::is_clock_time(now));
        if dedup::is_private(conn) {
            assert forall|key: (Seq<char>, Seq<char>)|
                dedup::completed_rows(conn).dom().contains(key) && dedup::completed_rows(conn)[key]
                    >= 0 && now <= dedup::completed_rows(conn)[key]
                    + ttl implies #[trigger] r->Ok_0@.dom().contains(key) by {
                dedup::lemma_forgotten_after_its_time(dedup::completed_rows(conn), now, ttl, key);
            }
        }
    }
}

/// A failure of the store is told as one, with what was tried and, at the end,
/// the cause.
pub proof fn lemma_failures_told(what: &str, cause: &str, e: AgentdError, d: AgentdError)
    requires
        call_ensures(dedup::store_error, (what, cause), e),
        call_ensures(dedup::directory_error, (what, cause), d),
    ensures
        e is DedupStore && e->DedupStore_0@ == what@ + cause@,
        d is DedupStore && text::has_suffix(d->DedupStore_0@, what@ + ": "@ + cause@),
{
    let m = d->DedupStore_0@;
    let end = what@ + ": "@ + cause@;
    assert(m.skip(m.len() - end.len()) =~= end);
}

/// A store's connection writes ahead, has every record on the disk before the
/// next step, and waits for five seconds where another connection is at work;
/// the table is there, and the rows that were there still are.
pub proof fn lemma_set_up(conn: rusqlite::Connection, r: Result<DedupStore, AgentdError>)
    requires
        call_ensures(DedupStore::with_connection, (conn,), r),
    ensures
        r is Err ==> r->Err_0 is DedupStore,
        r is Ok ==> {
            let to = r->Ok_0.connection();
            &&& dedup::has_table(to)
            &&& dedup::journal_mode_asked(to) == "WAL"@
            &&& dedup::synchronous_of(to) == "FULL"@
            &&& dedup::busy_timeout_of(to) == 5 * 1000
            &&& r->Ok_0.path() == dedup::opened_path(conn)
            &&& dedup::is_private(conn) ==> r->Ok_0@ == dedup::completed_rows(conn)
        },
{
}

/// The statements: an event is found by its agent and its id, recorded unless it
/// is there, and deleted exactly where it completed before a time.
pub proof fn lemma_statements()
    ensures
        dedup::SELECT_ONE@
            == "SELECT EXISTS(SELECT 1 FROM completed_events WHERE agent_id = ?1 AND event_id = ?2)"@,
        dedup::INSERT_ONE@
            == "INSERT OR IGNORE INTO completed_events (agent_id, event_id, completed_at) VALUES (?1, ?2, ?3)"@,
        dedup::DELETE_OLD@ == "DELETE FROM completed_events WHERE completed_at < ?1"@,
        dedup::COUNT_ALL@ == "SELECT COUNT(*) FROM completed_events"@,
{
}

/// A lookup gives what SQLite gives for that agent and that event, and fails
/// exactly where SQLite does, whatever the event is called.
pub proof fn lemma_lookup_asks(
    store: DedupStore,
    agent: AgentId,
    event: &str,
    r: Result<bool, AgentdError>,
)
    requires
        call_ensures(DedupStore::is_completed, (&store, &agent, event), r),
    ensures
        r is Ok ==> dedup::lookup_gives(store.connection(), agent@, event@, Some(r->Ok_0)),
        r is Err ==> dedup::lookup_gives(store.connection(), agent@, event@, None),
{
}

/// An event is recorded as SQLite is told, of that agent and that event and at
/// that time, and that fails exactly where SQLite does or the time does not fit.
pub proof fn lemma_record_tells(
    store: &mut DedupStore,
    agent: AgentId,
    event: &str,
    now: u64,
    r: Result<(), AgentdError>,
)
    requires
        call_ensures(DedupStore::mark_completed_at, (store, &agent, event, now), r),
        now < 0x8000_0000_0000_0000,
    ensures
        exists|conn: &mut rusqlite::Connection, made: bool|
            *conn == old(store).connection() && *final(conn) == final(store).connection() && made
                == r is Ok && #[trigger] dedup::insertion_gives(
                conn,
                agent@,
                event@,
                now as i64,
                made,
            ),
{
}

/// The same of an event that completed just now, with the clock's time.
pub proof fn lemma_record_tells_now(
    store: &mut DedupStore,
    agent: AgentId,
    event: &str,
    r: Result<(), AgentdError>,
)
    requires
        call_ensures(DedupStore::mark_completed, (store, &agent, event), r),
    ensures
        exists|now: u64| #[trigger]
            dedup::is_clock_time(now) && (now < 0x8000_0000_0000_0000 ==> exists|
                conn: &mut rusqlite::Connection,
                made: bool,
            |
                *conn == old(store).connection() && *final(conn) == final(store).connection()
                    && made == r is Ok && #[trigger] dedup::insertion_gives(
                    conn,
                    agent@,
                    event@,
                    now as i64,
                    made,
                )),
{
}

/// What is forgotten is what SQLite deletes: everything before the time that
/// lies the time to live back, or before the epoch's beginning where that would
/// be earlier; and that fails exactly where SQLite does or the time does not fit.
pub proof fn lemma_purge_tells(
    store: &mut DedupStore,
    ttl: u64,
    now: u64,
    r: Result<u64, AgentdError>,
)
    requires
        call_ensures(DedupStore::purge_expired_at, (store, ttl, now), r),
        now < 0x8000_0000_0000_0000,
    ensures
        exists|conn: &mut rusqlite::Connection, cutoff: i64, gone: Option<usize>|
            *conn == old(store).connection() && *final(conn) == final(store).connection() && (
            ttl <= now ==> cutoff + ttl == now) && (now < ttl ==> cutoff == 0) && r is Ok
                == gone is Some && (r is Ok ==> r->Ok_0 == gone->0)
                && #[trigger] dedup::deletion_gives(conn, cutoff, gone),
{
}

/// The same with the clock's time.
pub proof fn lemma_purge_tells_now(store: &mut DedupStore, ttl: u64, r: Result<u64, AgentdError>)
    requires
        call_ensures(DedupStore::purge_expired, (store, ttl), r),
    ensures
        exists|now: u64| #[trigger]
            dedup::is_clock_time(now) && (now < 0x8000_0000_0000_0000 ==> exists|
                conn: &mut rusqlite::Connection,
                cutoff: i64,
                gone: Option<usize>,
            |
                *conn == old(store).connection() && *final(conn) == final(store).connection() && (
                ttl <= now ==> cutoff + ttl == now) && (now < ttl ==> cutoff == 0) && r is Ok
                    == gone is Some && (r is Ok ==> r->Ok_0 == gone->0)
                    && #[trigger] dedup::deletion_gives(conn, cutoff, gone)),
{
}

/// A count is SQLite's, and fails exactly where SQLite does.
pub proof fn lemma_count_asks(store: DedupStore, r: Result<u64, AgentdError>)
    requires
        call_ensures(DedupStore::len, (&store,), r),
    ensures
        r is Ok ==> dedup::count_gives(store.connection(), Some(r->Ok_0 as int)),
        r is Err ==> dedup::count_gives(store.connection(), None),
{
}

/// A connection becomes a store exactly where it could be set up and what is too
/// old could be deleted from it; nothing else keeps it from being one.
pub proof fn lemma_opens_where_set_up(
    conn: rusqlite::Connection,
    ttl: u64,
    now: u64,
    r: Result<DedupStore, AgentdError>,
)
    requires
        call_ensures(DedupStore::open_connection, (conn, ttl, now), r),
        now < 0x8000_0000_0000_0000,
    ensures
        exists|set: Result<DedupStore, AgentdError>|
            #[trigger] call_ensures(DedupStore::with_connection, (conn,), set) && (set is Err ==> r
                == set) && (set is Ok ==> exists|
                c: &mut rusqlite::Connection,
                cutoff: i64,
                gone: Option<usize>,
            |
                *c == set->Ok_0.connection() && (ttl <= now ==> cutoff + ttl == now) && (now < ttl
                    ==> cutoff == 0) && r is Ok == gone is Some && #[trigger] dedup::deletion_gives(
                    c,
                    cutoff,
                    gone,
                )),
{
}

/// A file is refused exactly where SQLite refuses it; else it is opened with the
/// clock's time, as any connection.
pub proof fn lemma_file_asks(path: &str, ttl: u64, r: Result<DedupStore, AgentdError>)
    requires
        call_ensures(DedupStore::open, (path, ttl), r),
    ensures
        dedup::file_gives(path@, None) && r is Err || exists|
            conn: rusqlite::Connection,
            now: u64,
        |
            dedup::file_gives(path@, Some(conn)) && dedup::is_clock_time(now)
                && #[trigger] call_ensures(DedupStore::open_connection, (conn, ttl, now), r),
{
}

} // verus!
