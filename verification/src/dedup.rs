//! The store of completed events.
//!
//! It holds which events of which agents completed recently, and when, so that
//! a redelivery skips the handler. It is no inbox: it holds no payloads and no
//! state of consumers.
//!
//! Events are kept by agent, as redelivery is by agent: an event id that two
//! agents share means nothing to either.

use rusqlite::Connection;
use vstd::prelude::*;
use vstd::string::*;

use crate::agent_id::AgentId;
use crate::error::AgentdError;
use crate::text;
use crate::text::glue;

pub mod laws;

verus! {

/// The table of completed events.
pub const SCHEMA: &'static str =
    "CREATE TABLE IF NOT EXISTS completed_events (
    agent_id     TEXT NOT NULL,
    event_id     TEXT NOT NULL,
    completed_at INTEGER NOT NULL,
    PRIMARY KEY (agent_id, event_id)
);";

/// Whether an event of an agent is in the table.
pub const SELECT_ONE: &'static str =
    "SELECT EXISTS(SELECT 1 FROM completed_events WHERE agent_id = ?1 AND event_id = ?2)";

/// Puts an event of an agent into the table, unless it is there.
pub const INSERT_ONE: &'static str =
    "INSERT OR IGNORE INTO completed_events (agent_id, event_id, completed_at) VALUES (?1, ?2, ?3)";

/// Deletes the events that completed before a time.
pub const DELETE_OLD: &'static str = "DELETE FROM completed_events WHERE completed_at < ?1";

/// How many events are in the table.
pub const COUNT_ALL: &'static str = "SELECT COUNT(*) FROM completed_events";

// ---------------------------------------------------------------------------
// SQLite
// ---------------------------------------------------------------------------

/// `rusqlite::Connection`, a connection to one SQLite database.
#[verifier::external_type_specification]
#[verifier::external_body]
pub struct ExConnection(rusqlite::Connection);

/// `rusqlite::Error`.
#[verifier::external_type_specification]
#[verifier::external_body]
pub struct ExSqliteError(rusqlite::Error);

/// The rows of the table of completed events in a connection's database: when
/// an event of an agent completed. None where there is no table.
pub uninterp spec fn completed_rows(conn: Connection) -> Map<(Seq<char>, Seq<char>), int>;

/// Whether nothing but the connection changes the table of completed events,
/// and the table, where there is one, is as the schema makes it. It is so of a
/// fresh database in memory, which no other connection reaches; nothing is
/// known of a file, which anybody may have made or may be writing.
pub uninterp spec fn is_private(conn: Connection) -> bool;

/// The path that a connection was opened with.
pub uninterp spec fn opened_path(conn: Connection) -> Seq<char>;

/// Whether there was a table of completed events, or a view in its place, when
/// the schema was last applied through a connection.
pub uninterp spec fn has_table(conn: Connection) -> bool;

/// How strictly a connection waits for the disk: its `synchronous` setting.
pub uninterp spec fn synchronous_of(conn: Connection) -> Seq<char>;

/// The journal mode that a connection last asked for. Whether the database
/// follows is left to it: one in memory keeps no journal on disk.
pub uninterp spec fn journal_mode_asked(conn: Connection) -> Seq<char>;

/// How many milliseconds a connection waits for a busy database.
pub uninterp spec fn busy_timeout_of(conn: Connection) -> int;

/// Whether a connection is set up as the store needs it: a recorded event
/// survives a loss of power, a busy database is waited for, and the table is
/// there.
pub open spec fn is_set_up(conn: Connection) -> bool {
    &&& has_table(conn)
    &&& synchronous_of(conn) == "FULL"@
    &&& journal_mode_asked(conn) == "WAL"@
    &&& busy_timeout_of(conn) == 5000
}

/// Whether two connections were opened with the same path and are set up alike.
pub open spec fn same_settings(a: Connection, b: Connection) -> bool {
    &&& opened_path(a) == opened_path(b)
    &&& has_table(a) == has_table(b)
    &&& synchronous_of(a) == synchronous_of(b)
    &&& journal_mode_asked(a) == journal_mode_asked(b)
    &&& busy_timeout_of(a) == busy_timeout_of(b)
}

/// A text that SQLite compares in full: it leaves open how texts compare that
/// hold a NUL character.
pub open spec fn comparable(s: Seq<char>) -> bool {
    !s.contains('\0')
}

/// `Connection::open`: opens the database file at a path, and creates it where
/// it is missing. A path with a NUL character, which no C string can hold, is
/// refused. What the file holds, and which other paths can be opened, is not
/// stated.
#[verifier::external_body]
fn open_file(path: &str) -> (r: Result<Connection, rusqlite::Error>)
    ensures
        r matches Ok(conn) ==> opened_path(conn) == path@,
        path@.contains('\0') ==> r is Err,
{
    Connection::open(path)
}

/// `Connection::open_in_memory`: opens a new, empty database in memory that
/// only this connection reaches, by the path that SQLite has for one.
#[verifier::external_body]
fn open_memory() -> (r: Result<Connection, rusqlite::Error>)
    ensures
        r matches Ok(conn) ==> is_private(conn) && completed_rows(conn) == no_rows(),
        r matches Ok(conn) ==> opened_path(conn) == ":memory:"@,
{
    Connection::open_in_memory()
}

/// `Connection::pragma_update` with a text, on how the database is written to
/// disk: where it succeeds the setting has the value, or the journal mode was
/// asked for. All rows stay as they are. What asking for a journal mode does to
/// the other setting is not stated.
#[verifier::external_body]
fn set_text(conn: &mut Connection, name: &str, value: &str) -> (r: Result<(), rusqlite::Error>)
    requires
        (name@ == "journal_mode"@ && value@ == "WAL"@) || (name@ == "synchronous"@ && value@
            == "FULL"@),
    ensures
        is_private(*old(conn)) ==> is_private(*final(conn)) && completed_rows(*final(conn))
            == completed_rows(*old(conn)),
        opened_path(*final(conn)) == opened_path(*old(conn)),
        has_table(*final(conn)) == has_table(*old(conn)),
        busy_timeout_of(*final(conn)) == busy_timeout_of(*old(conn)),
        r is Ok && name@ == "synchronous"@ ==> synchronous_of(*final(conn)) == value@,
        r is Ok && name@ == "journal_mode"@ ==> journal_mode_asked(*final(conn)) == value@,
        name@ == "synchronous"@ ==> journal_mode_asked(*final(conn)) == journal_mode_asked(
            *old(conn),
        ),
{
    conn.pragma_update(None, name, value)
}

/// `Connection::pragma_update` with a number, on how long a busy database is
/// waited for: where it succeeds that is so many milliseconds. All rows and the
/// other settings stay as they are.
#[verifier::external_body]
fn set_number(conn: &mut Connection, name: &str, value: i64) -> (r: Result<(), rusqlite::Error>)
    requires
        name@ == "busy_timeout"@,
        0 <= value <= i32::MAX,
    ensures
        is_private(*old(conn)) ==> is_private(*final(conn)) && completed_rows(*final(conn))
            == completed_rows(*old(conn)),
        opened_path(*final(conn)) == opened_path(*old(conn)),
        has_table(*final(conn)) == has_table(*old(conn)),
        synchronous_of(*final(conn)) == synchronous_of(*old(conn)),
        journal_mode_asked(*final(conn)) == journal_mode_asked(*old(conn)),
        r is Ok ==> busy_timeout_of(*final(conn)) == value,
{
    conn.pragma_update(None, name, value)
}

/// `Connection::execute_batch` on the schema: makes the table where it is
/// missing, and leaves its rows as they are where it is not. The settings stay
/// as they are. Which batches succeed is not stated.
#[verifier::external_body]
fn make_table(conn: &mut Connection, sql: &str) -> (r: Result<(), rusqlite::Error>)
    requires
        sql@ == SCHEMA@,
    ensures
        is_private(*old(conn)) ==> is_private(*final(conn)) && completed_rows(*final(conn))
            == completed_rows(*old(conn)),
        r is Ok ==> has_table(*final(conn)),
        opened_path(*final(conn)) == opened_path(*old(conn)),
        synchronous_of(*final(conn)) == synchronous_of(*old(conn)),
        journal_mode_asked(*final(conn)) == journal_mode_asked(*old(conn)),
        busy_timeout_of(*final(conn)) == busy_timeout_of(*old(conn)),
{
    conn.execute_batch(sql)
}

/// `Connection::query_row` on the lookup: whether a row with these keys is
/// there. Which lookups succeed is not stated.
#[verifier::external_body]
fn select_one(conn: &Connection, sql: &str, agent: &str, event: &str) -> (r: Result<
    bool,
    rusqlite::Error,
>)
    requires
        sql@ == SELECT_ONE@,
    ensures
        r matches Ok(found) ==> is_private(*conn) && comparable(agent@) && comparable(event@)
            ==> found == completed_rows(*conn).dom().contains((agent@, event@)),
{
    conn.query_row(sql, (agent, event), |row| row.get(0))
}

/// `Connection::execute` on the insertion: the row is there afterwards, and a
/// row with these keys that was there before stays as it was. An insertion
/// that is reported to fail was made or not made. Which insertions succeed is
/// not stated.
#[verifier::external_body]
fn insert_one(conn: &mut Connection, sql: &str, agent: &str, event: &str, at: i64) -> (r: Result<
    (),
    rusqlite::Error,
>)
    requires
        sql@ == INSERT_ONE@,
    ensures
        same_settings(*final(conn), *old(conn)),
        is_private(*old(conn)) ==> is_private(*final(conn)),
        is_private(*old(conn)) && comparable(agent@) && comparable(event@) ==> {
            ||| completed_rows(*final(conn)) == with_row(
                completed_rows(*old(conn)),
                agent@,
                event@,
                at as int,
            )
            ||| r is Err && completed_rows(*final(conn)) == completed_rows(*old(conn))
        },
{
    conn.execute(sql, (agent, event, at)).map(|_| ())
}

/// `Connection::execute` on the deletion: the rows with an earlier time are
/// gone afterwards, the others stay, and the result is how many went, where
/// that number fits. A deletion that is reported to fail was made or not made.
/// Which deletions succeed is not stated.
#[verifier::external_body]
fn delete_old(conn: &mut Connection, sql: &str, cutoff: i64) -> (r: Result<usize, rusqlite::Error>)
    requires
        sql@ == DELETE_OLD@,
    ensures
        same_settings(*final(conn), *old(conn)),
        is_private(*old(conn)) ==> is_private(*final(conn)),
        is_private(*old(conn)) ==> {
            ||| completed_rows(*final(conn)) == rows_since(
                completed_rows(*old(conn)),
                cutoff as int,
            )
            ||| r is Err && completed_rows(*final(conn)) == completed_rows(*old(conn))
        },
        r matches Ok(n) ==> is_private(*old(conn)) && expired_rows(
            completed_rows(*old(conn)),
            cutoff as int,
        ).len() <= usize::MAX ==> n == expired_rows(
            completed_rows(*old(conn)),
            cutoff as int,
        ).len(),
{
    conn.execute(sql, (cutoff,))
}

/// `Connection::query_row` on the count: how many rows there are, which is a
/// finite number of them. Which counts succeed is not stated.
#[verifier::external_body]
fn count_all(conn: &Connection, sql: &str) -> (r: Result<i64, rusqlite::Error>)
    requires
        sql@ == COUNT_ALL@,
    ensures
        r matches Ok(n) ==> n >= 0 && (is_private(*conn) ==> completed_rows(*conn).dom().finite()
            && n == completed_rows(*conn).dom().len()),
{
    conn.query_row(sql, (), |row| row.get(0))
}

/// The `Display` form of `rusqlite::Error`. What it says is not stated.
#[verifier::external_body]
fn describe(e: rusqlite::Error) -> (s: String)
{
    e.to_string()
}

/// `SystemTime::elapsed` since the Unix epoch, in whole seconds; nothing where
/// the clock stands before the epoch.
#[verifier::external_body]
fn seconds_since_epoch() -> (r: Option<u64>)
{
    std::time::UNIX_EPOCH.elapsed().map(|d| d.as_secs()).ok()
}

// ---------------------------------------------------------------------------
// The store
// ---------------------------------------------------------------------------

/// No rows at all.
pub open spec fn no_rows() -> Map<(Seq<char>, Seq<char>), int> {
    Map::empty()
}

/// The rows with an event in: as they are where it is in already.
pub open spec fn with_row(
    rows: Map<(Seq<char>, Seq<char>), int>,
    agent: Seq<char>,
    event: Seq<char>,
    at: int,
) -> Map<(Seq<char>, Seq<char>), int> {
    if rows.dom().contains((agent, event)) {
        rows
    } else {
        rows.insert((agent, event), at)
    }
}

/// The rows that completed at a time or after it.
pub open spec fn rows_since(rows: Map<(Seq<char>, Seq<char>), int>, cutoff: int) -> Map<
    (Seq<char>, Seq<char>),
    int,
> {
    rows.restrict(rows.dom().difference(expired_rows(rows, cutoff)))
}

/// The events that completed before a time.
pub open spec fn expired_rows(rows: Map<(Seq<char>, Seq<char>), int>, cutoff: int) -> Set<
    (Seq<char>, Seq<char>),
> {
    rows.dom().filter(|key: (Seq<char>, Seq<char>)| rows[key] < cutoff)
}

/// What forgetting leads to: the expired rows are gone and their number is
/// given, where it fits; or there is a failure, and they are gone or not.
pub open spec fn purges_to(
    rows: Map<(Seq<char>, Seq<char>), int>,
    cutoff: int,
    r: Result<u64, AgentdError>,
    after: Map<(Seq<char>, Seq<char>), int>,
) -> bool {
    match r {
        Ok(n) => {
            &&& after == rows_since(rows, cutoff)
            &&& expired_rows(rows, cutoff).len() <= usize::MAX ==> n == expired_rows(
                rows,
                cutoff,
            ).len()
        },
        Err(_) => after == rows_since(rows, cutoff) || after == rows,
    }
}

/// Whether SQLite, asked on a connection for an event of an agent, may give
/// `found`: nothing where it fails.
pub closed spec fn lookup_gives(
    conn: Connection,
    agent: Seq<char>,
    event: Seq<char>,
    found: Option<bool>,
) -> bool {
    exists|a: &str, e: &str, r: Result<bool, rusqlite::Error>|
        a@ == agent && e@ == event && r is Ok == found is Some && (r is Ok ==> r->Ok_0 == found->0)
            && #[trigger] call_ensures(select_one, (&conn, SELECT_ONE, a, e), r)
}

/// Whether SQLite, asked on a connection how many events there are, may give
/// `count`: nothing where it fails.
pub closed spec fn count_gives(conn: Connection, count: Option<int>) -> bool {
    exists|r: Result<i64, rusqlite::Error>|
        r is Ok == count is Some && (r is Ok ==> r->Ok_0 == count->0) && #[trigger] call_ensures(
            count_all,
            (&conn, COUNT_ALL),
            r,
        )
}

/// Whether SQLite, told on a connection that an event of an agent completed at
/// a time, may succeed or fail so, and leave the connection as it is after.
pub closed spec fn insertion_gives(
    conn: &mut Connection,
    agent: Seq<char>,
    event: Seq<char>,
    at: i64,
    made: bool,
) -> bool {
    exists|a: &str, e: &str, r: Result<(), rusqlite::Error>|
        a@ == agent && e@ == event && r is Ok == made && #[trigger] call_ensures(
            insert_one,
            (conn, INSERT_ONE, a, e, at),
            r,
        )
}

/// Tells SQLite that an event of an agent completed at a time.
fn told<F: Fn(&mut Connection, &str, &str, &str, i64) -> Result<(), rusqlite::Error>>(
    insert: F,
    conn: &mut Connection,
    agent: &str,
    event: &str,
    at: i64,
) -> (r: Result<(), rusqlite::Error>)
    requires
        forall|c: &mut Connection| insert.requires((c, INSERT_ONE, agent, event, at)),
    ensures
        exists|c: &mut Connection|
            *c == *old(conn) && *final(c) == *final(conn) && #[trigger] insert.ensures(
                (c, INSERT_ONE, agent, event, at),
                r,
            ),
{
    insert(conn, INSERT_ONE, agent, event, at)
}

/// Whether SQLite, told on a connection to delete the events that completed
/// before a time, may give `gone` and leave the connection as it is after:
/// nothing where it fails.
pub closed spec fn deletion_gives(conn: &mut Connection, cutoff: i64, gone: Option<usize>) -> bool {
    exists|r: Result<usize, rusqlite::Error>|
        r is Ok == gone is Some && (r is Ok ==> r->Ok_0 == gone->0) && #[trigger] call_ensures(
            delete_old,
            (conn, DELETE_OLD, cutoff),
            r,
        )
}

/// Has SQLite delete the events that completed before a time.
fn cut<F: Fn(&mut Connection, &str, i64) -> Result<usize, rusqlite::Error>>(
    delete: F,
    conn: &mut Connection,
    cutoff: i64,
) -> (r: Result<usize, rusqlite::Error>)
    requires
        forall|c: &mut Connection| delete.requires((c, DELETE_OLD, cutoff)),
    ensures
        exists|c: &mut Connection|
            *c == *old(conn) && *final(c) == *final(conn) && #[trigger] delete.ensures(
                (c, DELETE_OLD, cutoff),
                r,
            ),
{
    delete(conn, DELETE_OLD, cutoff)
}

/// Whether SQLite, asked to open the file at a path, may give `conn`: nothing
/// where it fails.
pub closed spec fn file_gives(path: Seq<char>, conn: Option<Connection>) -> bool {
    exists|p: &str, r: Result<Connection, rusqlite::Error>|
        p@ == path && r is Ok == conn is Some && (r is Ok ==> r->Ok_0 == conn->0)
            && #[trigger] call_ensures(open_file, (p,), r)
}

/// Whether the clock, asked for the whole seconds since the Unix epoch, may
/// give `reading`: nothing where it stands before the epoch. Two readings may
/// differ.
pub closed spec fn clock_gives(reading: Option<u64>) -> bool {
    call_ensures(seconds_since_epoch, (), reading)
}

/// Whether a time is one that the clock gives, in whole seconds since the Unix
/// epoch; the epoch itself where it stands before it.
pub open spec fn is_clock_time(t: u64) -> bool {
    exists|reading: Option<u64>| #[trigger]
        clock_gives(reading) && match reading {
            Some(secs) => t == secs,
            None => t == 0,
        }
}

/// Asks the clock.
fn reading_of<F: Fn() -> Option<u64>>(clock: F) -> (r: Option<u64>)
    requires
        clock.requires(()),
    ensures
        clock.ensures((), r),
{
    clock()
}

/// The seconds since the Unix epoch; zero where the clock stands before it.
fn unix_now() -> (now: u64)
    ensures
        is_clock_time(now),
{
    let reading = reading_of(seconds_since_epoch);
    assert(clock_gives(reading));
    now_of(reading)
}

/// The time to go by, given the clock's.
pub fn now_of(clock: Option<u64>) -> (now: u64)
    ensures
        now == match clock {
            Some(t) => t,
            None => 0,
        },
{
    match clock {
        Some(t) => t,
        None => 0,
    }
}

/// From what time on events are kept: as long ago as their time to live, or
/// the epoch where that is before it.
pub open spec fn cutoff_of(now: u64, ttl: u64) -> int {
    if now >= ttl {
        now - ttl
    } else {
        0
    }
}

/// A failure of the store, and what it was about.
pub open spec fn is_store_error(e: AgentdError, what: Seq<char>) -> bool {
    e matches AgentdError::DedupStore(m) && exists|cause: Seq<char>| #[trigger] (what + cause) == m@
}

/// A failure of the store: what it was about, and its cause.
pub fn store_error(what: &str, cause: &str) -> (e: AgentdError)
    ensures
        e matches AgentdError::DedupStore(m) && m@ == what@ + cause@,
        is_store_error(e, what@),
{
    AgentdError::dedup_store(glue(what, cause))
}

/// The failure to create the directory of the store.
pub fn directory_error(dir: &str, cause: &str) -> (e: AgentdError)
    ensures
        e matches AgentdError::DedupStore(m) && m@ == "cannot create "@ + dir@ + ": "@ + cause@,
{
    let mut m = "cannot create ".to_owned();
    m.append(dir);
    m.append(": ");
    m.append(cause);
    AgentdError::dedup_store(m)
}

/// A time as SQLite holds it: one that does not fit is refused.
fn sql_time(t: u64, what: &str) -> (r: Result<i64, AgentdError>)
    ensures
        match r {
            Ok(i) => i == t,
            Err(e) => t > i64::MAX && is_store_error(e, what@),
        },
{
    if t > i64::MAX as u64 {
        Err(store_error(what, "out of range integral type conversion attempted"))
    } else {
        Ok(t as i64)
    }
}

/// What the dispatcher needs of a store of completed events. An implementation
/// says what its answers may be; one that does not promises nothing.
pub trait DedupCheck {
    /// Whether `r` may be the answer to whether an event of an agent
    /// completed.
    open spec fn answers(
        &self,
        agent: Seq<char>,
        event: Seq<char>,
        r: Result<bool, AgentdError>,
    ) -> bool {
        true
    }

    /// Whether recording an event of an agent may give `r` and leave the store
    /// as `after`.
    open spec fn records(
        &self,
        agent: Seq<char>,
        event: Seq<char>,
        r: Result<(), AgentdError>,
        after: &Self,
    ) -> bool {
        true
    }

    /// Whether an event of an agent completed.
    fn is_completed(&self, agent_id: &AgentId, event_id: &str) -> (r: Result<bool, AgentdError>)
        ensures
            self.answers(agent_id@, event_id@, r),
    ;

    /// Records that an event of an agent completed.
    fn mark_completed(&mut self, agent_id: &AgentId, event_id: &str) -> (r: Result<
        (),
        AgentdError,
    >)
        ensures
            old(self).records(agent_id@, event_id@, r, final(self)),
    ;
}

/// The store of completed events.
#[derive(Debug)]
pub struct DedupStore {
    conn: Connection,
}

impl View for DedupStore {
    type V = Map<(Seq<char>, Seq<char>), int>;

    closed spec fn view(&self) -> Map<(Seq<char>, Seq<char>), int> {
        completed_rows(self.conn)
    }
}

impl DedupStore {
    /// Whether the store's contents are its own.
    pub closed spec fn private(self) -> bool {
        is_private(self.conn)
    }

    /// The store's connection.
    pub closed spec fn connection(self) -> Connection {
        self.conn
    }

    /// Whether the store's connection is set up as it needs to be.
    pub open spec fn set_up(self) -> bool {
        is_set_up(self.connection())
    }

    /// The path of the store's database.
    pub closed spec fn path(self) -> Seq<char> {
        opened_path(self.conn)
    }

    /// Opens, or creates, the store in a file and forgets what is older than
    /// the time to live, in seconds. A file that cannot be opened is an error:
    /// what was recorded is never silently discarded.
    ///
    /// The result is an error about the path, or what a connection to the file
    /// leads to at the time of the clock. What the file holds, and which files
    /// can be opened, is not stated.
    pub fn open(path: &str, ttl: u64) -> (r: Result<DedupStore, AgentdError>)
        ensures
            r matches Ok(store) ==> store.path() == path@ && store.set_up(),
            is_open_error(r, path@) || exists|conn: Connection, now: u64|
                #[trigger] opens_to(conn, ttl, now, r) && opened_path(conn) == path@
                    && is_clock_time(now),
            path@.contains('\0') ==> is_open_error(r, path@),
            file_gives(path@, None) && is_open_error(r, path@) || exists|conn: Connection, now: u64|
                file_gives(path@, Some(conn)) && is_clock_time(now) && #[trigger] call_ensures(
                    DedupStore::open_connection,
                    (conn, ttl, now),
                    r,
                ),
    {
        let conn = match open_file(path) {
            Ok(conn) => {
                assert(file_gives(path@, Some(conn)));
                conn
            },
            Err(e) => {
                assert(file_gives(path@, None));
                let mut what = "cannot open ".to_owned();
                what.append(path);
                what.append(": ");
                return Err(store_error(what.as_str(), describe(e).as_str()));
            },
        };
        DedupStore::open_connection(conn, ttl, unix_now())
    }

    /// Sets a connection up as the store and forgets what is older than the
    /// time to live at a time, both in seconds.
    pub fn open_connection(conn: Connection, ttl: u64, now: u64) -> (r: Result<
        DedupStore,
        AgentdError,
    >)
        ensures
            opens_to(conn, ttl, now, r),
            exists|set: Result<DedupStore, AgentdError>|
                #[trigger] call_ensures(DedupStore::with_connection, (conn,), set) && (set is Err
                    ==> r == set) && (set is Ok && cutoff_of(now, ttl) <= i64::MAX ==> exists|
                    c: &mut Connection,
                    gone: Option<usize>,
                |
                    *c == set->Ok_0.connection() && r is Ok == gone is Some && (r is Ok
                        ==> r->Ok_0.connection() == *final(c)) && #[trigger] deletion_gives(
                        c,
                        cutoff_of(now, ttl) as i64,
                        gone,
                    )),
    {
        let mut store = match DedupStore::with_connection(conn) {
            Ok(store) => store,
            Err(e) => {
                return Err(e);
            },
        };
        match store.purge_expired_at(ttl, now) {
            Ok(_) => Ok(store),
            Err(e) => Err(e),
        }
    }

    /// Opens an empty store in memory.
    pub fn open_in_memory() -> (r: Result<DedupStore, AgentdError>)
        ensures
            match r {
                Ok(store) => {
                    &&& store.set_up()
                    &&& store.private()
                    &&& store@ == no_rows()
                    &&& store.path() == ":memory:"@
                },
                Err(e) => is_store_error(e, "cannot open in-memory store: "@) || is_setup_error(e),
            },
    {
        match open_memory() {
            Ok(conn) => DedupStore::with_connection(conn),
            Err(e) => Err(store_error("cannot open in-memory store: ", describe(e).as_str())),
        }
    }

    /// Sets a connection up: every recorded event survives a crash, a busy
    /// database is waited for, and the table is there.
    pub fn with_connection(conn: Connection) -> (r: Result<DedupStore, AgentdError>)
        ensures
            match r {
                Ok(store) => {
                    &&& store.set_up()
                    &&& store.path() == opened_path(conn)
                    &&& is_private(conn) ==> store.private() && store@ == completed_rows(conn)
                },
                Err(e) => is_setup_error(e),
            },
    {
        let mut conn = conn;
        if let Err(e) = set_text(&mut conn, "journal_mode", "WAL") {
            return Err(store_error("cannot set journal_mode=WAL: ", describe(e).as_str()));
        }
        if let Err(e) = set_text(&mut conn, "synchronous", "FULL") {
            return Err(store_error("cannot set synchronous=FULL: ", describe(e).as_str()));
        }
        if let Err(e) = set_number(&mut conn, "busy_timeout", 5000) {
            return Err(store_error("cannot set busy_timeout: ", describe(e).as_str()));
        }
        if let Err(e) = make_table(&mut conn, SCHEMA) {
            return Err(store_error("cannot create schema: ", describe(e).as_str()));
        }
        Ok(DedupStore { conn })
    }

    /// Whether an event of an agent completed.
    pub fn is_completed(&self, agent_id: &AgentId, event_id: &str) -> (r: Result<bool, AgentdError>)
        ensures
            match r {
                Ok(found) => self.private() && comparable(event_id@) ==> found
                    == self@.dom().contains((agent_id@, event_id@)),
                Err(e) => is_store_error(e, "is_completed lookup failed: "@),
            },
            lookup_gives(self.connection(), agent_id@, event_id@, r.ok()),
    {
        let agent = agent_id.as_str();
        proof {
            lemma_agents_comparable(agent@);
        }
        match select_one(&self.conn, SELECT_ONE, agent, event_id) {
            Ok(found) => Ok(found),
            Err(e) => Err(store_error("is_completed lookup failed: ", describe(e).as_str())),
        }
    }

    /// Records that an event of an agent completed just now. An event that is
    /// recorded already stays as it was recorded.
    pub fn mark_completed(&mut self, agent_id: &AgentId, event_id: &str) -> (r: Result<
        (),
        AgentdError,
    >)
        ensures
            final(self).path() == old(self).path(),
            final(self).set_up() == old(self).set_up(),
            old(self).private() ==> final(self).private(),
            old(self).private() && comparable(event_id@) ==> {
                ||| exists|now: u64|
                    is_clock_time(now) && final(self)@ == #[trigger] with_row(
                        old(self)@,
                        agent_id@,
                        event_id@,
                        now as int,
                    )
                ||| r is Err && final(self)@ == old(self)@
            },
            r matches Err(e) ==> is_store_error(e, "mark_completed insert failed: "@),
            exists|now: u64| #[trigger]
                is_clock_time(now) && (now <= i64::MAX ==> exists|conn: &mut Connection, made: bool|
                    *conn == old(self).connection() && *final(conn) == final(self).connection()
                        && made == r is Ok && #[trigger] insertion_gives(
                        conn,
                        agent_id@,
                        event_id@,
                        now as i64,
                        made,
                    )),
    {
        let now = unix_now();
        self.mark_completed_at(agent_id, event_id, now)
    }

    /// Records that an event of an agent completed at a time, in seconds since
    /// the epoch. An event that is recorded already stays as it was recorded.
    pub fn mark_completed_at(&mut self, agent_id: &AgentId, event_id: &str, now: u64) -> (r: Result<
        (),
        AgentdError,
    >)
        ensures
            final(self).path() == old(self).path(),
            final(self).set_up() == old(self).set_up(),
            old(self).private() ==> final(self).private(),
            old(self).private() && comparable(event_id@) ==> {
                ||| final(self)@ == with_row(old(self)@, agent_id@, event_id@, now as int)
                ||| r is Err && final(self)@ == old(self)@
            },
            r matches Err(e) ==> is_store_error(e, "mark_completed insert failed: "@),
            now > i64::MAX ==> r is Err,
            now <= i64::MAX ==> exists|conn: &mut Connection, made: bool|
                *conn == old(self).connection() && *final(conn) == final(self).connection() && made
                    == r is Ok && #[trigger] insertion_gives(
                    conn,
                    agent_id@,
                    event_id@,
                    now as i64,
                    made,
                ),
    {
        let what = "mark_completed insert failed: ";
        let at: i64 = match sql_time(now, what) {
            Ok(at) => at,
            Err(e) => {
                return Err(e);
            },
        };
        let agent = agent_id.as_str();
        proof {
            lemma_agents_comparable(agent@);
        }
        let made = told(insert_one, &mut self.conn, agent, event_id, at);
        let ghost asked = choose|c: &mut Connection|
            *c == old(self).conn && *final(c) == self.conn && #[trigger] call_ensures(
                insert_one,
                (c, INSERT_ONE, agent, event_id, at),
                made,
            );
        assert(insertion_gives(asked, agent_id@, event_id@, now as i64, made is Ok));
        match made {
            Ok(_) => Ok(()),
            Err(e) => Err(store_error(what, describe(e).as_str())),
        }
    }

    /// Forgets the events older than the time to live, in seconds; says how
    /// many they were.
    pub fn purge_expired(&mut self, ttl: u64) -> (r: Result<u64, AgentdError>)
        ensures
            final(self).path() == old(self).path(),
            final(self).set_up() == old(self).set_up(),
            old(self).private() ==> final(self).private(),
            old(self).private() ==> exists|now: u64|
                is_clock_time(now) && #[trigger] purges_to(
                    old(self)@,
                    cutoff_of(now, ttl),
                    r,
                    final(self)@,
                ),
            r matches Err(e) ==> is_store_error(e, "purge failed: "@),
            exists|now: u64| #[trigger]
                is_clock_time(now) && (cutoff_of(now, ttl) <= i64::MAX ==> exists|
                    conn: &mut Connection,
                    gone: Option<usize>,
                |
                    *conn == old(self).connection() && *final(conn) == final(self).connection()
                        && r is Ok == gone is Some && (r is Ok ==> r->Ok_0 == gone->0)
                        && #[trigger] deletion_gives(conn, cutoff_of(now, ttl) as i64, gone)),
    {
        let now = unix_now();
        self.purge_expired_at(ttl, now)
    }

    /// Forgets the events that are older than the time to live at a time, both
    /// in seconds; says how many they were.
    pub fn purge_expired_at(&mut self, ttl: u64, now: u64) -> (r: Result<u64, AgentdError>)
        ensures
            final(self).path() == old(self).path(),
            final(self).set_up() == old(self).set_up(),
            old(self).private() ==> final(self).private(),
            old(self).private() ==> purges_to(
                old(self)@,
                cutoff_of(now, ttl),
                r,
                final(self)@,
            ),
            r matches Err(e) ==> is_store_error(e, "purge failed: "@),
            cutoff_of(now, ttl) > i64::MAX ==> r is Err,
            cutoff_of(now, ttl) <= i64::MAX ==> exists|
                conn: &mut Connection,
                gone: Option<usize>,
            |
                *conn == old(self).connection() && *final(conn) == final(self).connection() && r
                    is Ok == gone is Some && (r is Ok ==> r->Ok_0 == gone->0)
                    && #[trigger] deletion_gives(conn, cutoff_of(now, ttl) as i64, gone),
    {
        let cutoff: u64 = now.saturating_sub(ttl);
        let at: i64 = match sql_time(cutoff, "purge failed: ") {
            Ok(at) => at,
            Err(e) => {
                return Err(e);
            },
        };
        let gone = cut(delete_old, &mut self.conn, at);
        let ghost asked = choose|c: &mut Connection|
            *c == old(self).conn && *final(c) == self.conn && #[trigger] call_ensures(
                delete_old,
                (c, DELETE_OLD, at),
                gone,
            );
        assert(deletion_gives(asked, cutoff_of(now, ttl) as i64, gone.ok()));
        match gone {
            Ok(n) => Ok(n as u64),
            Err(e) => Err(store_error("purge failed: ", describe(e).as_str())),
        }
    }

    /// How many events are recorded.
    pub fn len(&self) -> (r: Result<u64, AgentdError>)
        ensures
            match r {
                Ok(n) => self.private() ==> self@.dom().finite() && n == self@.dom().len(),
                Err(e) => is_store_error(e, "count failed: "@),
            },
            count_gives(
                self.connection(),
                match r {
                    Ok(n) => Some(n as int),
                    Err(_) => None,
                },
            ),
    {
        match count_all(&self.conn, COUNT_ALL) {
            Ok(n) => Ok(n as u64),
            Err(e) => Err(store_error("count failed: ", describe(e).as_str())),
        }
    }

    /// Whether no event is recorded.
    pub fn is_empty(&self) -> (r: Result<bool, AgentdError>)
        ensures
            match r {
                Ok(empty) => self.private() ==> empty == (self@ == no_rows()),
                Err(e) => is_store_error(e, "count failed: "@),
            },
    {
        match self.len() {
            Ok(n) => {
                proof {
                    if self.private() {
                        assert(self@.dom().len() == 0 ==> self@.dom() =~= Set::empty());
                        assert(self@.dom().len() == 0 ==> self@ =~= Map::empty());
                    }
                }
                Ok(n == 0)
            },
            Err(e) => Err(e),
        }
    }
}

/// A failure to open the file at a path.
pub open spec fn is_open_error(r: Result<DedupStore, AgentdError>, path: Seq<char>) -> bool {
    r matches Err(e) && is_store_error(e, "cannot open "@ + path + ": "@)
}

/// What a connection leads to that is set up as the store at a time: the store
/// of the connection's database, without the events that are older than the
/// time to live, or a failure to set it up or to forget them. A time that
/// SQLite cannot hold is such a failure.
pub open spec fn opens_to(
    conn: Connection,
    ttl: u64,
    now: u64,
    r: Result<DedupStore, AgentdError>,
) -> bool {
    match r {
        Ok(store) => {
            &&& cutoff_of(now, ttl) <= i64::MAX
            &&& store.set_up()
            &&& store.path() == opened_path(conn)
            &&& is_private(conn) ==> store.private() && store@ == rows_since(
                completed_rows(conn),
                cutoff_of(now, ttl),
            )
        },
        Err(e) => is_setup_error(e) || is_store_error(e, "purge failed: "@),
    }
}

/// A failure to set a connection up.
pub open spec fn is_setup_error(e: AgentdError) -> bool {
    ||| is_store_error(e, "cannot set journal_mode=WAL: "@)
    ||| is_store_error(e, "cannot set synchronous=FULL: "@)
    ||| is_store_error(e, "cannot set busy_timeout: "@)
    ||| is_store_error(e, "cannot create schema: "@)
}

proof fn lemma_agents_comparable(agent: Seq<char>)
    requires
        crate::agent_id::valid_agent_id(agent),
    ensures
        comparable(agent),
{
    if agent.contains('\0') {
        let i = choose|i: int| 0 <= i < agent.len() && agent[i] == '\0';
        crate::agent_id::lemma_id_chars(agent, i);
    }
}

impl DedupCheck for DedupStore {
    open spec fn answers(
        &self,
        agent: Seq<char>,
        event: Seq<char>,
        r: Result<bool, AgentdError>,
    ) -> bool {
        &&& match r {
            Ok(found) => self.private() && comparable(event) ==> found == self@.dom().contains(
                (agent, event),
            ),
            Err(e) => is_store_error(e, "is_completed lookup failed: "@),
        }
        &&& lookup_gives(self.connection(), agent, event, r.ok())
    }

    open spec fn records(
        &self,
        agent: Seq<char>,
        event: Seq<char>,
        r: Result<(), AgentdError>,
        after: &DedupStore,
    ) -> bool {
        &&& after.path() == self.path()
        &&& after.set_up() == self.set_up()
        &&& self.private() ==> after.private()
        &&& self.private() && comparable(event) ==> {
            ||| exists|now: u64|
                is_clock_time(now) && after@ == #[trigger] with_row(
                    self@,
                    agent,
                    event,
                    now as int,
                )
            ||| r is Err && after@ == self@
        }
        &&& r matches Err(e) ==> is_store_error(e, "mark_completed insert failed: "@)
    }

    fn is_completed(&self, agent_id: &AgentId, event_id: &str) -> (r: Result<bool, AgentdError>) {
        DedupStore::is_completed(self, agent_id, event_id)
    }

    fn mark_completed(&mut self, agent_id: &AgentId, event_id: &str) -> (r: Result<
        (),
        AgentdError,
    >) {
        DedupStore::mark_completed(self, agent_id, event_id)
    }
}

// ---------------------------------------------------------------------------
// Laws
// ---------------------------------------------------------------------------

/// An event that was recorded is found from then on.
pub proof fn lemma_recorded_is_found(
    rows: Map<(Seq<char>, Seq<char>), int>,
    agent: Seq<char>,
    event: Seq<char>,
    at: int,
)
    ensures
        with_row(rows, agent, event, at).dom().contains((agent, event)),
{
}

/// Recording an event again changes nothing, whenever it is.
pub proof fn lemma_recording_is_idempotent(
    rows: Map<(Seq<char>, Seq<char>), int>,
    agent: Seq<char>,
    event: Seq<char>,
    at: int,
    again: int,
)
    ensures
        with_row(with_row(rows, agent, event, at), agent, event, again) == with_row(
            rows,
            agent,
            event,
            at,
        ),
{
}

/// Recording an event of one agent changes nothing for another agent, nor for
/// another event.
pub proof fn lemma_recording_is_separate(
    rows: Map<(Seq<char>, Seq<char>), int>,
    agent: Seq<char>,
    event: Seq<char>,
    at: int,
    other_agent: Seq<char>,
    other_event: Seq<char>,
)
    requires
        (other_agent, other_event) != (agent, event),
    ensures
        with_row(rows, agent, event, at).dom().contains((other_agent, other_event))
            == rows.dom().contains((other_agent, other_event)),
        rows.dom().contains((other_agent, other_event)) ==> with_row(rows, agent, event, at)[(
            other_agent,
            other_event,
        )] == rows[(other_agent, other_event)],
{
}

/// Forgetting takes exactly the expired events: an event stays, as it was
/// recorded, if and only if it is not older than the time to live.
pub proof fn lemma_forgets_only_expired(
    rows: Map<(Seq<char>, Seq<char>), int>,
    now: u64,
    ttl: u64,
    agent: Seq<char>,
    event: Seq<char>,
)
    requires
        rows.dom().contains((agent, event)),
    ensures
        rows_since(rows, cutoff_of(now, ttl)).dom().contains((agent, event)) <==> rows[(
            agent,
            event,
        )] >= cutoff_of(now, ttl),
        rows[(agent, event)] >= cutoff_of(now, ttl) ==> rows_since(rows, cutoff_of(now, ttl))[(
            agent,
            event,
        )] == rows[(agent, event)],
{
}

/// An event outlives its recording by at least the time to live.
pub proof fn lemma_kept_for_its_time(
    rows: Map<(Seq<char>, Seq<char>), int>,
    agent: Seq<char>,
    event: Seq<char>,
    at: u64,
    now: u64,
    ttl: u64,
)
    requires
        !rows.dom().contains((agent, event)),
        now <= at + ttl,
    ensures
        rows_since(with_row(rows, agent, event, at as int), cutoff_of(now, ttl)).dom().contains(
            (agent, event),
        ),
{
}

/// Recording a new event makes the store larger by one; recording one that is
/// there does not.
pub proof fn lemma_recorded_count(
    rows: Map<(Seq<char>, Seq<char>), int>,
    agent: Seq<char>,
    event: Seq<char>,
    at: int,
)
    requires
        rows.dom().finite(),
    ensures
        with_row(rows, agent, event, at).dom().len() == rows.dom().len() + if rows.dom().contains(
            (agent, event),
        ) {
            0nat
        } else {
            1nat
        },
{
}

/// Recording an event again does not put off when it is forgotten.
pub proof fn lemma_recording_again_postpones_nothing(
    rows: Map<(Seq<char>, Seq<char>), int>,
    agent: Seq<char>,
    event: Seq<char>,
    at: int,
    cutoff: int,
)
    requires
        rows.dom().contains((agent, event)),
    ensures
        rows_since(with_row(rows, agent, event, at), cutoff) == rows_since(rows, cutoff),
{
}

/// The states of a store that events are recorded in, one after another and
/// each with success.
pub open spec fn recorded_in_turn(
    stores: Seq<DedupStore>,
    events: Seq<(Seq<char>, Seq<char>)>,
) -> bool {
    &&& stores.len() == events.len() + 1
    &&& forall|k: int| #![trigger events[k]]
        0 <= k < events.len() ==> comparable(events[k].1) && stores[k].records(
            events[k].0,
            events[k].1,
            Ok(()),
            &stores[k + 1],
        )
}

proof fn lemma_rows_of_recorded(
    stores: Seq<DedupStore>,
    events: Seq<(Seq<char>, Seq<char>)>,
    agent: Seq<char>,
    event: Seq<char>,
)
    requires
        recorded_in_turn(stores, events),
        stores[0].private(),
    ensures
        stores.last().private(),
        stores.last()@.dom().contains((agent, event)) <==> stores[0]@.dom().contains(
            (agent, event),
        ) || events.contains((agent, event)),
        stores[0]@.dom().contains((agent, event)) ==> stores.last()@[(agent, event)]
            == stores[0]@[(agent, event)],
    decreases events.len(),
{
    if events.len() > 0 {
        let n = events.len() - 1;
        let front = events.drop_last();
        assert forall|k: int| #![trigger front[k]] 0 <= k < front.len() implies comparable(
            front[k].1,
        ) && stores.drop_last()[k].records(
            front[k].0,
            front[k].1,
            Ok(()),
            &stores.drop_last()[k + 1],
        ) by {
            assert(front[k] == events[k]);
        }
        lemma_rows_of_recorded(stores.drop_last(), front, agent, event);
        assert(stores.drop_last().last() == stores[n]);
        assert(stores[n].records(events[n].0, events[n].1, Ok(()), &stores[n + 1]));
        assert(stores[n + 1] == stores.last());
        assert(events[n] == (events[n].0, events[n].1));
        if events.contains((agent, event)) {
            let k = choose|k: int| 0 <= k < events.len() && events[k] == (agent, event);
            if k < n {
                assert(front[k] == events[k]);
            }
        }
        if front.contains((agent, event)) {
            let k = choose|k: int| 0 <= k < front.len() && front[k] == (agent, event);
            assert(events[k] == front[k]);
        }
    }
}

/// In a store that was empty, exactly the recorded events are found, each for
/// the agent that it was recorded for.
pub proof fn lemma_found_iff_recorded(
    stores: Seq<DedupStore>,
    events: Seq<(Seq<char>, Seq<char>)>,
    agent: Seq<char>,
    event: Seq<char>,
    found: bool,
)
    requires
        recorded_in_turn(stores, events),
        stores[0].private(),
        stores[0]@ == no_rows(),
        comparable(event),
        stores.last().answers(agent, event, Ok(found)),
    ensures
        found <==> events.contains((agent, event)),
{
    lemma_rows_of_recorded(stores, events, agent, event);
}

/// Recording an event that was recorded leaves the store as it is, with the
/// time of the first record, whatever else was recorded in between and however
/// the second attempt ends.
pub proof fn lemma_recording_again(
    stores: Seq<DedupStore>,
    events: Seq<(Seq<char>, Seq<char>)>,
    r: Result<(), AgentdError>,
    after: DedupStore,
)
    requires
        recorded_in_turn(stores, events),
        events.len() > 0,
        stores[0].private(),
        stores.last().records(events[0].0, events[0].1, r, &after),
    ensures
        after@ == stores.last()@,
        after@.dom().contains(events[0]),
        after@[events[0]] == stores[1]@[events[0]],
{
    let (agent, event) = events[0];
    let rest = events.drop_first();
    assert(stores[0].records(agent, event, Ok(()), &stores[1]));
    assert forall|k: int| #![trigger rest[k]] 0 <= k < rest.len() implies comparable(rest[k].1)
        && stores.drop_first()[k].records(
        rest[k].0,
        rest[k].1,
        Ok(()),
        &stores.drop_first()[k + 1],
    ) by {
        assert(rest[k] == events[k + 1]);
    }
    lemma_rows_of_recorded(stores.drop_first(), rest, agent, event);
    assert(stores.drop_first()[0] == stores[1]);
    assert(stores.drop_first().last() == stores.last());
}

/// An event that is in stays in, and a new one is in with the time that it is
/// recorded at; nothing else comes in.
pub proof fn lemma_recorded_rows(
    rows: Map<(Seq<char>, Seq<char>), int>,
    agent: Seq<char>,
    event: Seq<char>,
    at: int,
    key: (Seq<char>, Seq<char>),
)
    ensures
        with_row(rows, agent, event, at).dom().contains(key) <==> rows.dom().contains(key) || (
        key.0 == agent && key.1 == event),
        rows.dom().contains(key) ==> with_row(rows, agent, event, at)[key] == rows[key],
        !rows.dom().contains(key) && key.0 == agent && key.1 == event ==> with_row(
            rows,
            agent,
            event,
            at,
        )[key] == at,
{
}

/// What forgetting leaves, in seconds: an event that was recorded at a time
/// stays, with that time, exactly as long as no more than the time to live has
/// passed since.
pub proof fn lemma_forgotten_after_its_time(
    rows: Map<(Seq<char>, Seq<char>), int>,
    now: u64,
    ttl: u64,
    key: (Seq<char>, Seq<char>),
)
    requires
        rows.dom().contains(key) ==> rows[key] >= 0,
    ensures
        rows_since(rows, cutoff_of(now, ttl)).dom().contains(key) <==> rows.dom().contains(key)
            && now <= rows[key] + ttl,
        rows.dom().contains(key) && now <= rows[key] + ttl ==> rows_since(
            rows,
            cutoff_of(now, ttl),
        )[key] == rows[key],
        expired_rows(rows, cutoff_of(now, ttl)).contains(key) <==> rows.dom().contains(key) && now
            > rows[key] + ttl,
{
}

/// An event that is recorded and then found forgotten was forgotten by the
/// clock: some purge in between read the clock, and what it read is more than
/// the time to live, in seconds, past what the clock gave at the recording.
pub proof fn lemma_forgotten_by_the_clock(
    before: DedupStore,
    agent: Seq<char>,
    event: Seq<char>,
    recorded: DedupStore,
    ttl: u64,
    r: Result<u64, AgentdError>,
    purged: Map<(Seq<char>, Seq<char>), int>,
)
    requires
        before.private(),
        comparable(event),
        !before@.dom().contains((agent, event)),
        before.records(agent, event, Ok(()), &recorded),
        exists|now: u64|
            is_clock_time(now) && #[trigger] purges_to(
                recorded@,
                cutoff_of(now, ttl),
                r,
                purged,
            ),
    ensures
        exists|then: u64, now: u64|
            #![trigger is_clock_time(then), is_clock_time(now)]
            is_clock_time(then) && is_clock_time(now) && recorded@[(agent, event)] == then && (
            purged.dom().contains((agent, event)) <== now <= then + ttl) && (r is Ok && now > then
                + ttl ==> !purged.dom().contains((agent, event))),
{
    let then = choose|then: u64|
        is_clock_time(then) && recorded@ == #[trigger] with_row(before@, agent, event, then as int);
    let now = choose|now: u64|
        is_clock_time(now) && #[trigger] purges_to(recorded@, cutoff_of(now, ttl), r, purged);
    lemma_recorded_rows(before@, agent, event, then as int, (agent, event));
    lemma_forgotten_after_its_time(recorded@, now, ttl, (agent, event));
    assert(is_clock_time(then) && is_clock_time(now));
}

/// The number that a purge gives is that of the events it forgot.
pub proof fn lemma_purge_counts(
    rows: Map<(Seq<char>, Seq<char>), int>,
    cutoff: int,
    n: u64,
    after: Map<(Seq<char>, Seq<char>), int>,
)
    requires
        rows.dom().finite(),
        rows.dom().len() <= usize::MAX,
        purges_to(rows, cutoff, Ok(n), after),
    ensures
        after.dom().len() + n == rows.dom().len(),
        after.dom().subset_of(rows.dom()),
{
    let gone = expired_rows(rows, cutoff);
    assert(gone.subset_of(rows.dom()));
    vstd::set_lib::lemma_len_subset(gone, rows.dom());
    assert(after.dom() =~= rows.dom().difference(gone));
    assert(rows.dom() =~= after.dom() + gone);
    assert(after.dom().disjoint(gone));
    vstd::set_lib::lemma_set_disjoint_lens(after.dom(), gone);
}

/// SQLite compares every text in full that holds no NUL character.
pub proof fn lemma_comparable(s: Seq<char>)
    ensures
        comparable(s) <==> forall|i: int| 0 <= i < s.len() ==> #[trigger] s[i] != '\0',
{
    if comparable(s) {
        assert forall|i: int| 0 <= i < s.len() implies #[trigger] s[i] != '\0' by {
            assert(s.contains(s[i]));
        }
    }
}

} // verus!
