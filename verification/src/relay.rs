//! The relay's side of the daemon: what the stream and the consumers look
//! like, what a change of the registry means for them, and when to fetch how
//! many messages.
//!
//! The connection itself is the caller's. All semantics of dispatch are in the
//! dispatcher. The stream is created by the operator, never by the running
//! daemon.

use vstd::prelude::*;
use vstd::string::*;

use crate::agent_id;
use crate::agent_id::AgentId;
use crate::config::DaemonConfig;
use crate::error::AgentdError;
use crate::logging;
use crate::logging::events;
use crate::logging::{text_field, with_one, Level, Record, RecordModel};
use crate::registry;
use crate::registry::{AgentConfig, Change, ChangeModel, Registry};
use crate::text;
use crate::text::glue;

pub mod laws;

verus! {

/// How long a fetch waits for messages at the relay, in seconds. The free
/// slots are read anew at least this often.
pub const FETCH_EXPIRES_SECS: u64 = 30;

/// How long a fetch is waited for on this side, in seconds. A fetch that got
/// lost with its connection is given up after that time.
pub const FETCH_CAP_SECS: u64 = 10;

/// How long to sleep where no slot is free or a fetch failed, in seconds.
pub const NO_SLOT_SLEEP_SECS: u64 = 1;

/// How long the stream keeps its messages, in seconds.
pub const STREAM_MAX_AGE_SECS: u64 = 604800;

/// The subjects of the stream: those of all agents.
pub const STREAM_SUBJECTS: &'static str = "agent.events.>";

/// The name of an agent's durable consumer: the agent's id behind a prefix.
pub open spec fn consumer_of(agent: Seq<char>) -> Seq<char> {
    "agent-"@ + agent
}

/// The name of an agent's durable consumer: the agent's id behind a prefix.
pub fn consumer_name(id: &AgentId) -> (s: String)
    ensures
        s@ == consumer_of(id@),
{
    glue("agent-", id.as_str())
}

/// How messages are acknowledged.
#[derive(Debug, Clone, Copy, PartialEq, Eq, Structural)]
pub enum AckPolicy {
    /// Each by itself.
    Explicit,
}

/// From where on a consumer delivers.
#[derive(Debug, Clone, Copy, PartialEq, Eq, Structural)]
pub enum DeliverPolicy {
    /// Everything the stream holds.
    All,
}

/// The configuration of a pull consumer.
#[derive(Debug)]
pub struct ConsumerConfig {
    pub durable_name: Option<String>,
    pub filter_subject: String,
    pub ack_policy: AckPolicy,
    pub deliver_policy: DeliverPolicy,
    pub max_ack_pending: i64,
    pub ack_wait_secs: u64,
}

/// The consumer of an agent: durable under the agent's name, for the agent's
/// subject alone, with no more unacknowledged messages than the agent has
/// slots.
pub fn consumer_config(id: &AgentId, ack_wait_secs: u64, max_ack_pending: u32) -> (c:
    ConsumerConfig)
    ensures
        c.durable_name matches Some(n) && n@ == consumer_of(id@),
        c.filter_subject@ == agent_id::subject_of(id@),
        c.ack_policy == AckPolicy::Explicit,
        c.deliver_policy == DeliverPolicy::All,
        c.max_ack_pending == max_ack_pending,
        c.ack_wait_secs == ack_wait_secs,
{
    ConsumerConfig {
        durable_name: Some(consumer_name(id)),
        filter_subject: id.subject(),
        ack_policy: AckPolicy::Explicit,
        deliver_policy: DeliverPolicy::All,
        max_ack_pending: max_ack_pending as i64,
        ack_wait_secs,
    }
}

/// What limits how long messages stay.
#[derive(Debug, Clone, Copy, PartialEq, Eq, Structural)]
pub enum RetentionPolicy {
    /// The limits of the stream.
    Limits,
}

/// Where messages are stored.
#[derive(Debug, Clone, Copy, PartialEq, Eq, Structural)]
pub enum StorageType {
    File,
}

/// The configuration of the stream.
#[derive(Debug)]
pub struct StreamConfig {
    pub name: String,
    pub subjects: Vec<String>,
    pub retention: RetentionPolicy,
    pub storage: StorageType,
    pub max_age_secs: u64,
    pub max_message_size: i32,
    pub num_replicas: usize,
}

/// The stream that the operator creates: all agents' subjects, kept in files
/// for a week, with messages no larger than the daemon accepts.
pub fn stream_config(config: &DaemonConfig) -> (s: StreamConfig)
    requires
        config.max_event_bytes <= i32::MAX,
    ensures
        s.name@ == config.stream_name@,
        text::texts(s.subjects@) == seq![STREAM_SUBJECTS@],
        s.retention == RetentionPolicy::Limits,
        s.storage == StorageType::File,
        s.max_age_secs == 7 * 24 * 3600,
        s.max_message_size == config.max_event_bytes,
        s.num_replicas == 1,
{
    let mut subjects: Vec<String> = Vec::new();
    subjects.push(STREAM_SUBJECTS.to_owned());
    assert(text::texts(subjects@) =~= seq![STREAM_SUBJECTS@]);
    StreamConfig {
        name: config.stream_name.clone(),
        subjects,
        retention: RetentionPolicy::Limits,
        storage: StorageType::File,
        max_age_secs: STREAM_MAX_AGE_SECS,
        max_message_size: config.max_event_bytes as i32,
        num_replicas: 1,
    }
}

// ---------------------------------------------------------------------------
// Failures
// ---------------------------------------------------------------------------

/// A configuration error: what failed, on what, and why.
pub open spec fn is_failure(
    e: AgentdError,
    what: Seq<char>,
    subject: Seq<char>,
    rest: Seq<char>,
    cause: Seq<char>,
) -> bool {
    e matches AgentdError::Config(m) && m@ == what + subject + rest + cause
}

fn failure(what: &str, subject: &str, rest: &str, cause: &str) -> (e: AgentdError)
    ensures
        is_failure(e, what@, subject@, rest@, cause@),
{
    let mut m = what.to_owned();
    m.append(subject);
    m.append(rest);
    m.append(cause);
    AgentdError::config(m)
}

/// The stream could not be created.
pub fn stream_not_created(stream: &str, cause: &str) -> (e: AgentdError)
    ensures
        is_failure(e, "cannot create stream "@, stream@, ": "@, cause@),
{
    failure("cannot create stream ", stream, ": ", cause)
}

/// The stream could not be found.
pub fn stream_unavailable(stream: &str, cause: &str) -> (e: AgentdError)
    ensures
        is_failure(e, "stream "@, stream@, " unavailable: "@, cause@),
{
    failure("stream ", stream, " unavailable: ", cause)
}

/// An agent's consumer could not be bound.
pub fn consumer_not_bound(id: &AgentId, cause: &str) -> (e: AgentdError)
    ensures
        is_failure(e, "cannot bind consumer for "@, id@, ": "@, cause@),
{
    failure("cannot bind consumer for ", id.as_str(), ": ", cause)
}

/// The credentials could not be read.
pub fn credentials_unreadable(path: &str, cause: &str) -> (e: AgentdError)
    ensures
        is_failure(e, "cannot read credentials "@, path@, ": "@, cause@),
{
    failure("cannot read credentials ", path, ": ", cause)
}

/// The relay could not be connected to.
pub fn not_connected(url: &str, cause: &str) -> (e: AgentdError)
    ensures
        is_failure(e, "cannot connect to "@, url@, ": "@, cause@),
{
    failure("cannot connect to ", url, ": ", cause)
}

// ---------------------------------------------------------------------------
// Changes of the registry
// ---------------------------------------------------------------------------

/// What a change of the registry means for an agent's consumer: whether to
/// stop fetching, and with how many slots to bind the consumer anew, if at
/// all.
#[derive(Debug)]
pub struct ConsumerPlan {
    pub agent: AgentId,
    pub stop: bool,
    pub bind: Option<u32>,
}

/// Added and enabled agents are bound; updated ones are bound anew as they are
/// registered now, unless they are disabled; disabled and removed ones are no
/// longer fetched for. Nothing is ever done to a running handler.
pub open spec fn consumer_plan_of(
    change: ChangeModel,
    agents: Map<Seq<char>, registry::AgentConfigModel>,
) -> (bool, Option<nat>) {
    match change {
        ChangeModel::Added(c) => (false, Some(c.max_concurrency)),
        ChangeModel::Enabled(c) => (false, Some(c.max_concurrency)),
        ChangeModel::Updated(c) => (
            true,
            match registry::diff::lookup(agents, c.agent_id) {
                Some(now) if now.enabled => Some(now.max_concurrency),
                _ => None,
            },
        ),
        ChangeModel::Disabled(_) => (true, None),
        ChangeModel::Removed(_) => (true, None),
    }
}

/// What a change means for an agent's consumer.
pub fn consumer_plan(change: &Change, registry: &Registry) -> (p: ConsumerPlan)
    requires
        registry.well_formed(),
    ensures
        p.agent@ == change@.agent(),
        p.stop == consumer_plan_of(change@, registry@).0,
        match p.bind {
            Some(n) => consumer_plan_of(change@, registry@).1 == Some(n as nat),
            None => consumer_plan_of(change@, registry@).1 is None,
        },
{
    let agent = change.agent_id();
    match change {
        Change::Added(c) => ConsumerPlan { agent, stop: false, bind: Some(c.max_concurrency) },
        Change::Enabled(c) => ConsumerPlan { agent, stop: false, bind: Some(c.max_concurrency) },
        Change::Updated(_) => {
            let bind = match registry.get(&agent) {
                Some(now) => if now.enabled {
                    Some(now.max_concurrency)
                } else {
                    None
                },
                None => None,
            };
            ConsumerPlan { agent, stop: true, bind }
        },
        Change::Disabled(_) => ConsumerPlan { agent, stop: true, bind: None },
        Change::Removed(_) => ConsumerPlan { agent, stop: true, bind: None },
    }
}

/// What follows: whether to start fetching, and what to log.
#[derive(Debug)]
pub struct ConsumerOutcome {
    pub start: bool,
    pub log: Vec<Record>,
}

/// What is logged where an added or enabled agent cannot be bound.
pub open spec fn bind_failed_of(agent: Seq<char>, e: AgentdError) -> RecordModel {
    logging::record_of(
        Level::Error,
        "consumer bind failed; agent not consumed until next reload: "@ + e.message(),
        seq![logging::text_of("agent_id"@, agent)],
    )
}

/// After a plan was carried out. Fetching starts where the consumer was bound.
/// An agent that cannot be bound is logged and left until the next reload; the
/// others are not concerned.
pub open spec fn consumer_outcome_of(
    change: ChangeModel,
    bound: Option<Result<(), AgentdError>>,
) -> (bool, Seq<RecordModel>) {
    let id = change.agent();
    let start = bound is Some && bound->0 is Ok;
    match change {
        ChangeModel::Added(_) => match bound {
            Some(Ok(_)) => (
                start,
                seq![
                    events::consumer_bound_of(id, consumer_of(id)),
                    events::agent_registered_of(id),
                ],
            ),
            Some(Err(e)) => (start, seq![bind_failed_of(id, e)]),
            None => (start, seq![]),
        },
        ChangeModel::Enabled(_) => match bound {
            Some(Ok(_)) => (start, seq![events::consumer_bound_of(id, consumer_of(id))]),
            Some(Err(e)) => (start, seq![bind_failed_of(id, e)]),
            None => (start, seq![]),
        },
        ChangeModel::Updated(_) => (start, seq![events::agent_updated_of(id)]),
        ChangeModel::Disabled(_) => (start, seq![events::agent_updated_of(id)]),
        ChangeModel::Removed(_) => (start, seq![events::agent_unregistered_of(id)]),
    }
}

/// What follows from a change, given how binding went where it was to be done.
pub fn consumer_outcome(change: &Change, bound: Option<Result<(), AgentdError>>) -> (o:
    ConsumerOutcome)
    ensures
        (o.start, logging::records_view(o.log@)) == consumer_outcome_of(change@, bound),
{
    let id = change.agent_id();
    let start = match &bound {
        Some(Ok(_)) => true,
        _ => false,
    };
    let mut log: Vec<Record> = Vec::new();
    match change {
        Change::Updated(_) => {
            log.push(events::agent_updated(&id));
        },
        Change::Disabled(_) => {
            log.push(events::agent_updated(&id));
        },
        Change::Removed(_) => {
            log.push(events::agent_unregistered(&id));
        },
        _ => {
            match bound {
                Some(Ok(_)) => {
                    log.push(events::consumer_bound(&id, consumer_name(&id).as_str()));
                    if let Change::Added(_) = change {
                        log.push(events::agent_registered(&id));
                    }
                },
                Some(Err(e)) => {
                    let m = glue(
                        "consumer bind failed; agent not consumed until next reload: ",
                        e.to_string().as_str(),
                    );
                    log.push(
                        with_one(Level::Error, m.as_str(), text_field("agent_id", id.as_str())),
                    );
                },
                None => {},
            }
        },
    }
    assert(logging::records_view(log@) =~= consumer_outcome_of(change@, bound).1);
    ConsumerOutcome { start, log }
}

/// The changes that bring a daemon that fetches for nobody to where the
/// registry is: every enabled agent is added.
pub open spec fn startup_changes_of(listing: Seq<registry::AgentConfigModel>) -> Seq<ChangeModel>
    decreases listing.len(),
{
    if listing.len() == 0 {
        seq![]
    } else {
        let front = startup_changes_of(listing.drop_last());
        if listing.last().enabled {
            front.push(ChangeModel::Added(listing.last()))
        } else {
            front
        }
    }
}

/// The changes to apply at startup.
pub fn startup_changes(registry: &Registry) -> (r: Vec<Change>)
    requires
        registry.well_formed(),
    ensures
        exists|listing: Seq<registry::AgentConfigModel>|
            registry::listing::is_listing(listing) && registry::listing::by_id(listing) == registry@
                && registry::changes_view(r@) == #[trigger] startup_changes_of(listing),
{
    let agents: Vec<AgentConfig> = registry.snapshot();
    let ghost listing = registry::listing::configs_view(agents@);
    let mut out: Vec<Change> = Vec::new();
    assert(listing.take(0) =~= seq![]);
    assert(registry::changes_view(out@) =~= seq![]);
    for i in 0..agents.len()
        invariant
            listing == registry::listing::configs_view(agents@),
            registry::changes_view(out@) == startup_changes_of(listing.take(i as int)),
    {
        assert(listing.take(i + 1).drop_last() =~= listing.take(i as int));
        assert(listing[i as int] == agents@[i as int]@);
        let ghost before = registry::changes_view(out@);
        if agents[i].enabled {
            let c = Change::Added(agents[i].clone());
            out.push(c);
            assert(registry::changes_view(out@) =~= before.push(c@));
        }
    }
    assert(listing.take(agents@.len() as int) =~= listing);
    out
}

// ---------------------------------------------------------------------------
// Fetching
// ---------------------------------------------------------------------------

/// What to do next for an agent whose messages are fetched.
#[derive(Debug, Clone, Copy, PartialEq, Eq, Structural)]
pub enum Pull {
    /// Sleep, then look again.
    Sleep { secs: u64 },
    /// Fetch up to so many messages; the relay waits for them so long, and
    /// this side no longer than the cap.
    Fetch { max_messages: usize, expires_secs: u64, cap_secs: u64 },
}

/// What to do with so many free slots: no more messages are fetched than can
/// be handled right now.
pub fn next_pull(free: usize) -> (p: Pull)
    ensures
        p == if free == 0 {
            Pull::Sleep { secs: NO_SLOT_SLEEP_SECS }
        } else {
            Pull::Fetch {
                max_messages: free,
                expires_secs: FETCH_EXPIRES_SECS,
                cap_secs: FETCH_CAP_SECS,
            }
        },
{
    if free == 0 {
        Pull::Sleep { secs: NO_SLOT_SLEEP_SECS }
    } else {
        Pull::Fetch {
            max_messages: free,
            expires_secs: FETCH_EXPIRES_SECS,
            cap_secs: FETCH_CAP_SECS,
        }
    }
}

/// What can go wrong while fetching for an agent.
#[derive(Debug, Clone, Copy, PartialEq, Eq, Structural)]
pub enum PullFault {
    /// The fetch itself failed.
    Fetch,
    /// A message of a fetch did not arrive.
    Message,
    /// A message carries no position in the stream.
    Metadata,
}

/// What follows from a fault: what to log, and whether to sleep before the
/// next fetch. A message that is unusable is passed over.
pub fn pull_fault(agent: &AgentId, fault: PullFault, cause: &str) -> (r: (Record, Option<u64>))
    ensures
        r.0@ == logging::record_of(
            Level::Warn,
            (match fault {
                PullFault::Fetch => "fetch failed: "@,
                PullFault::Message => "message fetch error: "@,
                PullFault::Metadata => "message without JetStream metadata: "@,
            }) + cause@,
            seq![logging::text_of("agent_id"@, agent@)],
        ),
        r.1 == if fault == PullFault::Fetch {
            Some(NO_SLOT_SLEEP_SECS)
        } else {
            None
        },
{
    let (what, sleep) = match fault {
        PullFault::Fetch => ("fetch failed: ", Some(NO_SLOT_SLEEP_SECS)),
        PullFault::Message => ("message fetch error: ", None),
        PullFault::Metadata => ("message without JetStream metadata: ", None),
    };
    let m = glue(what, cause);
    (with_one(Level::Warn, m.as_str(), text_field("agent_id", agent.as_str())), sleep)
}

/// A change of the connection to the relay.
#[derive(Debug, Clone, Copy, PartialEq, Eq, Structural)]
pub enum ConnectionEvent {
    Connected,
    Disconnected,
    Other,
}

/// What a change of the connection means: whether the relay is connected now,
/// and what to log; nothing where it means nothing.
pub fn connection_change(event: ConnectionEvent, url: &str) -> (r: Option<(bool, Record)>)
    ensures
        match event {
            ConnectionEvent::Connected => r matches Some((up, record)) && up && record@
                == logging::record_of(
                Level::Info,
                "nats connected"@,
                seq![logging::text_of("nats_url"@, url@)],
            ),
            ConnectionEvent::Disconnected => r matches Some((up, record)) && !up && record@
                == logging::record_of(Level::Warn, "nats disconnected"@, seq![]),
            ConnectionEvent::Other => r is None,
        },
{
    match event {
        ConnectionEvent::Connected => Some((true, events::nats_connected(url))),
        ConnectionEvent::Disconnected => Some((false, events::nats_disconnected())),
        ConnectionEvent::Other => None,
    }
}

// ---------------------------------------------------------------------------
// Laws
// ---------------------------------------------------------------------------

/// Different agents have different consumers.
pub proof fn lemma_consumers_differ(a: Seq<char>, b: Seq<char>)
    requires
        consumer_of(a) == consumer_of(b),
    ensures
        a == b,
{
    let head = "agent-"@;
    assert(a =~= consumer_of(a).skip(head.len() as int));
    assert(b =~= consumer_of(b).skip(head.len() as int));
}

/// Every agent's subject is one of the stream's: it is the stream's pattern
/// with something in place of the wildcard.
pub proof fn lemma_subjects_in_stream(agent: Seq<char>)
    requires
        agent_id::valid_agent_id(agent),
    ensures
        ({
            let stem = STREAM_SUBJECTS@.drop_last();
            &&& STREAM_SUBJECTS@.last() == '>'
            &&& agent_id::subject_of(agent).take(stem.len() as int) == stem
            &&& agent_id::subject_of(agent).len() > stem.len()
        }),
{
    reveal_strlit("agent.events.>");
    reveal_strlit("agent.events");
    reveal_strlit(".");
    agent_id::lemma_id_nonempty(agent);
    let stem = STREAM_SUBJECTS@.drop_last();
    assert(stem =~= agent_id::SUBJECT_PREFIX@ + "."@);
    assert(agent_id::subject_of(agent).take(stem.len() as int) =~= stem);
}

/// The startup changes add exactly the enabled agents.
pub proof fn lemma_startup_adds_enabled(listing: Seq<registry::AgentConfigModel>, k: int)
    ensures
        0 <= k < startup_changes_of(listing).len() ==> exists|i: int|
            0 <= i < listing.len() && (#[trigger] listing[i]).enabled && startup_changes_of(
                listing,
            )[k] == ChangeModel::Added(listing[i]),
        0 <= k < listing.len() && listing[k].enabled ==> startup_changes_of(listing).contains(
            ChangeModel::Added(listing[k]),
        ),
    decreases listing.len(),
{
    if listing.len() > 0 {
        let front = listing.drop_last();
        lemma_startup_adds_enabled(front, k);
        let all = startup_changes_of(listing);
        let part = startup_changes_of(front);
        if 0 <= k < part.len() {
            let i = choose|i: int|
                0 <= i < front.len() && (#[trigger] front[i]).enabled && part[k]
                    == ChangeModel::Added(front[i]);
            assert(listing[i] == front[i]);
            assert(all[k] == part[k]);
        } else if 0 <= k < all.len() {
            assert(listing[listing.len() - 1].enabled);
        }
        if 0 <= k < listing.len() && listing[k].enabled {
            if k < front.len() {
                assert(front[k] == listing[k]);
                let p = choose|p: int|
                    0 <= p < part.len() && part[p] == ChangeModel::Added(listing[k]);
                assert(all[p] == part[p]);
            } else {
                assert(all[all.len() - 1] == ChangeModel::Added(listing[k]));
            }
        }
    }
}

} // verus!
