//! Laws of the relay's side: what each function gives, told by its arguments.

use vstd::prelude::*;

use crate::agent_id::AgentId;
use crate::config::DaemonConfig;
use crate::dispatcher::laws;
use crate::dispatcher::model;
use crate::dispatcher::model::DispatcherModel;
use crate::error::AgentdError;
use crate::logging::{FieldValueModel, Level};
use crate::registry;
use crate::registry::{AgentConfigModel, Change, ChangeModel, Registry};
use crate::relay;
use crate::relay::{
    ConsumerConfig, ConsumerOutcome, ConsumerPlan, ConnectionEvent, Pull, PullFault, StreamConfig,
};

verus! {

/// Where a change leads to binding a consumer, the consumer is bound with the
/// `max_concurrency` of the registration: that of an added or enabled agent as
/// the change has it, that of an updated one as it is registered now. An
/// updated agent that is not registered or disabled now, a disabled and a
/// removed one are not bound; and for those three, and for every updated one,
/// fetching stops.
pub proof fn lemma_bound_as_registered(
    change: ChangeModel,
    agents: Map<Seq<char>, AgentConfigModel>,
    c: AgentConfigModel,
)
    ensures
        ({
            let (stop, bind) = relay::consumer_plan_of(change, agents);
            &&& change == ChangeModel::Added(c) || change == ChangeModel::Enabled(c) ==> bind
                == Some(c.max_concurrency) && !stop
            &&& change == ChangeModel::Updated(c) ==> stop
            &&& change == ChangeModel::Updated(c) && agents.dom().contains(c.agent_id)
                && agents[c.agent_id].enabled ==> bind == Some(agents[c.agent_id].max_concurrency)
            &&& change == ChangeModel::Updated(c) && !(agents.dom().contains(c.agent_id)
                && agents[c.agent_id].enabled) ==> bind is None
            &&& change is Disabled || change is Removed ==> bind is None && stop
        }),
{
}

/// The same of what is planned: for its agent, with so many slots.
pub proof fn lemma_plan_as_registered(change: Change, agents: Registry, p: ConsumerPlan)
    requires
        call_ensures(relay::consumer_plan, (&change, &agents), p),
    ensures
        p.agent@ == change@.agent(),
        match change {
            Change::Added(c) => p.bind == Some(c.max_concurrency) && !p.stop,
            Change::Enabled(c) => p.bind == Some(c.max_concurrency) && !p.stop,
            Change::Updated(c) => p.stop && (p.bind is Some <==> agents@.dom().contains(
                c@.agent_id,
            ) && agents@[c@.agent_id].enabled) && (p.bind is Some ==> p.bind->0
                == agents@[c@.agent_id].max_concurrency),
            Change::Disabled(_) => p.stop && p.bind is None,
            Change::Removed(_) => p.stop && p.bind is None,
        },
{
}

/// A consumer that is bound lets as many messages wait for an answer as the
/// agent's new gate has slots: what the relay delivers can be handled, and what
/// can be handled is delivered.
pub proof fn lemma_bound_like_the_gate(
    m: DispatcherModel,
    change: ChangeModel,
    agents: Map<Seq<char>, AgentConfigModel>,
)
    requires
        model::coherent(m),
        agents.dom().contains(change.agent()),
        agents[change.agent()].enabled,
        registry::config_fault(agents[change.agent()]) is None,
        change is Added || change is Enabled || change is Updated,
        change matches ChangeModel::Added(c) ==> agents[change.agent()] == c,
        change matches ChangeModel::Enabled(c) ==> agents[change.agent()] == c,
    ensures
        ({
            let after = model::without_gates(m, set![change.agent()]);
            let (n, free) = model::available_of(after, agents, change.agent());
            &&& relay::consumer_plan_of(change, agents).1 matches Some(slots) && free == slots
            &&& n.gates[n.gate_of[change.agent()]] == free
        }),
{
    let after = model::without_gates(m, set![change.agent()]);
    crate::dispatcher::histories::lemma_gates_gone(m, set![change.agent()]);
    laws::lemma_configured_slots(after, agents, change.agent());
}

/// A consumer is for its agent alone: under the agent's name, on the agent's
/// subject, from the beginning of the stream, with every message acknowledged
/// by itself and no more of them unacknowledged than given.
pub proof fn lemma_consumer_of_agent(id: AgentId, wait: u64, slots: u32, c: ConsumerConfig)
    requires
        call_ensures(relay::consumer_config, (&id, wait, slots), c),
    ensures
        c.durable_name is Some,
        c.durable_name->0@ == "agent-"@ + id@,
        c.max_ack_pending == slots,
        c.ack_wait_secs == wait,
        c.ack_policy is Explicit,
        c.deliver_policy is All,
        c.filter_subject@.len() == "agent.events."@.len() + id@.len(),
        forall|i: int|
            0 <= i < id@.len() ==> #[trigger] id@[i] == c.filter_subject@["agent.events."@.len()
                + i] || (id@[i] == '/' && c.filter_subject@["agent.events."@.len() + i] == '.'),
{
    reveal_strlit("agent.events.");
    reveal_strlit("agent.events");
    reveal_strlit(".");
    let s = c.filter_subject@;
    assert forall|i: int| 0 <= i < id@.len() implies #[trigger] id@[i] == s["agent.events."@.len()
        + i] || (id@[i] == '/' && s["agent.events."@.len() + i] == '.') by {
        assert(s["agent.events."@.len() + i] == crate::agent_id::dotted(id@)[i]);
    }
}

/// The stream takes every message that the daemon would take, and none that it
/// would refuse for its size; it keeps messages for seven days.
pub proof fn lemma_stream_of_daemon(config: DaemonConfig, s: StreamConfig)
    requires
        config.max_event_bytes <= i32::MAX,
        call_ensures(relay::stream_config, (&config,), s),
    ensures
        s.name@ == config.stream_name@,
        s.max_message_size == config.max_event_bytes,
        s.max_age_secs == 7 * 86400,
        s.subjects@.len() == 1,
        s.subjects@[0]@ == "agent.events.>"@,
        s.num_replicas == 1,
{
    let subjects = crate::text::texts(s.subjects@);
    assert(subjects.len() == 1 && subjects.len() == s.subjects@.len());
    assert(subjects[0] == s.subjects@[0]@);
}

/// Fetching starts exactly where the consumer was bound.
pub proof fn lemma_fetches_where_bound(
    change: ChangeModel,
    bound: Option<Result<(), AgentdError>>,
)
    ensures
        relay::consumer_outcome_of(change, bound).0 <==> (bound matches Some(r) && r is Ok),
{
}

/// What is logged of a change is about its agent. An added or enabled agent
/// that cannot be bound is an error, once, with the cause; nothing else is one.
pub proof fn lemma_outcome_log(
    change: ChangeModel,
    bound: Option<Result<(), AgentdError>>,
    k: int,
)
    requires
        0 <= k < relay::consumer_outcome_of(change, bound).1.len(),
    ensures
        ({
            let r = relay::consumer_outcome_of(change, bound).1[k];
            &&& r.fields.len() >= 1
            &&& r.fields[0].name == "agent_id"@
            &&& r.fields[0].value == FieldValueModel::Text(change.agent())
            &&& r.level == Level::Error <==> (change is Added || change is Enabled) && (
            bound matches Some(b) && b is Err)
            &&& r.level == Level::Error || r.level == Level::Info
        }),
{
}

/// How many records a change leaves, and what the last one says.
pub proof fn lemma_outcome_records(
    change: ChangeModel,
    bound: Option<Result<(), AgentdError>>,
)
    ensures
        ({
            let log = relay::consumer_outcome_of(change, bound).1;
            &&& change is Updated || change is Disabled ==> log.len() == 1 && log[0].message
                == "agent updated"@
            &&& change is Removed ==> log.len() == 1 && log[0].message == "agent unregistered"@
            &&& change is Added && (bound matches Some(b) && b is Ok) ==> log.len() == 2
                && log[0].message == "consumer bound"@ && log[1].message == "agent registered"@
            &&& change is Enabled && (bound matches Some(b) && b is Ok) ==> log.len() == 1
                && log[0].message == "consumer bound"@
            &&& (change is Added || change is Enabled) && bound is None ==> log.len() == 0
        }),
{
}

/// No more messages are fetched than can be handled, and none are where nothing
/// can be; as many are asked for as can be handled.
pub proof fn lemma_fetches_what_fits(free: usize, p: Pull)
    requires
        call_ensures(relay::next_pull, (free,), p),
    ensures
        p is Sleep <==> free == 0,
        p matches Pull::Fetch { max_messages, expires_secs, cap_secs } ==> max_messages == free
            && expires_secs == 30 && cap_secs == 10,
        p matches Pull::Sleep { secs } ==> secs == 1,
{
}

/// A fetch that failed is tried again after a second; a message that is
/// unusable is passed over at once. Either is a warning about the agent.
pub proof fn lemma_faults_are_passed_over(
    agent: AgentId,
    fault: PullFault,
    cause: &str,
    r: (crate::logging::Record, Option<u64>),
)
    requires
        call_ensures(relay::pull_fault, (&agent, fault, cause), r),
    ensures
        r.1 is Some <==> fault is Fetch,
        r.1 is Some ==> r.1->0 == 1,
        r.0@.level == Level::Warn,
        r.0@.fields.len() == 1,
        r.0@.fields[0].value == FieldValueModel::Text(agent@),
        crate::text::has_suffix(r.0@.message, cause@),
{
    let m = r.0@.message;
    assert(m.skip(m.len() - cause@.len()) =~= cause@);
}

/// The daemon is connected exactly from a connection to the loss of it.
pub proof fn lemma_connection_follows(
    event: ConnectionEvent,
    url: &str,
    r: Option<(bool, crate::logging::Record)>,
)
    requires
        call_ensures(relay::connection_change, (event, url), r),
    ensures
        r is None <==> event is Other,
        r matches Some(told) ==> (told.0 <==> event is Connected),
{
}

/// What is logged of the connection: where it leads when there is one, and a
/// warning when it is lost.
pub proof fn lemma_connection_told(
    event: ConnectionEvent,
    url: &str,
    r: Option<(bool, crate::logging::Record)>,
)
    requires
        call_ensures(relay::connection_change, (event, url), r),
    ensures
        event is Connected ==> r is Some && (r->0).1@.level == Level::Info && (
        r->0).1@.fields.len() == 1 && (r->0).1@.fields[0].value == FieldValueModel::Text(url@),
        event is Disconnected ==> r is Some && (r->0).1@.level == Level::Warn && (
        r->0).1@.fields.len() == 0,
{
}

/// After a change was carried out: fetching starts exactly where the consumer
/// was bound; an agent that could not be bound is told of once, with the cause;
/// and every record is about the agent of the change.
pub proof fn lemma_outcome(
    change: Change,
    bound: Option<Result<(), AgentdError>>,
    o: ConsumerOutcome,
    k: int,
)
    requires
        call_ensures(relay::consumer_outcome, (&change, bound), o),
    ensures
        o.start <==> bound is Some && bound->0 is Ok,
        change is Updated || change is Disabled || change is Removed ==> o.log@.len() == 1,
        (change is Added || change is Enabled) && bound is None ==> o.log@.len() == 0,
        (change is Added || change is Enabled) && bound is Some && bound->0 is Err ==> o.log@.len()
            == 1 && crate::text::has_suffix(o.log@[0]@.message, bound->0->Err_0.message()),
        change is Added && bound is Some && bound->0 is Ok ==> o.log@.len() == 2,
        change is Enabled && bound is Some && bound->0 is Ok ==> o.log@.len() == 1,
        0 <= k < o.log@.len() ==> o.log@[k]@.fields.len() >= 1
            && o.log@[k]@.fields[0].value == FieldValueModel::Text(change@.agent()) && (
        o.log@[k]@.level == Level::Error <==> (change is Added || change is Enabled)
            && bound is Some && bound->0 is Err),
{
    let log = relay::consumer_outcome_of(change@, bound).1;
    assert(crate::logging::records_view(o.log@) == log);
    assert(log.len() == o.log@.len());
    if 0 <= k < o.log@.len() {
        assert(crate::logging::records_view(o.log@)[k] == o.log@[k]@);
        lemma_outcome_log(change@, bound, k);
    }
    if (change is Added || change is Enabled) && bound is Some && bound->0 is Err {
        assert(crate::logging::records_view(o.log@)[0] == o.log@[0]@);
        let m = o.log@[0]@.message;
        let e = bound->0->Err_0.message();
        assert(m.skip(m.len() - e.len()) =~= e);
    }
}

/// At startup exactly the enabled agents are added, as they are registered.
pub proof fn lemma_startup(agents: Registry, r: Vec<Change>, id: Seq<char>, k: int)
    requires
        agents.well_formed(),
        call_ensures(relay::startup_changes, (&agents,), r),
    ensures
        0 <= k < r@.len() ==> r@[k]@ is Added && agents@.dom().contains(r@[k]@.agent())
            && agents@[r@[k]@.agent()].enabled && r@[k]@ == ChangeModel::Added(
            agents@[r@[k]@.agent()],
        ),
        agents@.dom().contains(id) && agents@[id].enabled ==> exists|j: int|
            0 <= j < r@.len() && #[trigger] r@[j]@ == ChangeModel::Added(agents@[id]),
{
    let listing = choose|listing: Seq<AgentConfigModel>|
        registry::listing::is_listing(listing) && registry::listing::by_id(listing) == agents@
            && registry::changes_view(r@) == #[trigger] relay::startup_changes_of(listing);
    let all = relay::startup_changes_of(listing);
    assert(all.len() == r@.len());
    if 0 <= k < r@.len() {
        assert(registry::changes_view(r@)[k] == r@[k]@);
        relay::lemma_startup_adds_enabled(listing, k);
        let i = choose|i: int|
            0 <= i < listing.len() && (#[trigger] listing[i]).enabled && all[k]
                == ChangeModel::Added(listing[i]);
        registry::listing::lemma_place(listing, i);
    }
    if agents@.dom().contains(id) && agents@[id].enabled {
        assert(registry::listing::lists(listing, id));
        let i = choose|i: int| 0 <= i < listing.len() && (#[trigger] listing[i]).agent_id == id;
        registry::listing::lemma_place(listing, i);
        relay::lemma_startup_adds_enabled(listing, i);
        let j = choose|j: int| 0 <= j < all.len() && all[j] == ChangeModel::Added(listing[i]);
        assert(registry::changes_view(r@)[j] == r@[j]@);
    }
}

/// Startup adds the agents in the order of their ids, so nobody twice.
pub proof fn lemma_startup_once(agents: Registry, r: Vec<Change>, i: int, j: int)
    requires
        agents.well_formed(),
        call_ensures(relay::startup_changes, (&agents,), r),
        0 <= i < j < r@.len(),
    ensures
        crate::text::lex_lt(r@[i]@.agent(), r@[j]@.agent()),
        r@[i]@.agent() != r@[j]@.agent(),
{
    crate::text::lemma_lex_irreflexive(r@[i]@.agent());
    let listing = choose|listing: Seq<AgentConfigModel>|
        registry::listing::is_listing(listing) && registry::listing::by_id(listing) == agents@
            && registry::changes_view(r@) == #[trigger] relay::startup_changes_of(listing);
    assert(relay::startup_changes_of(listing).len() == r@.len());
    assert(registry::changes_view(r@)[i] == r@[i]@);
    assert(registry::changes_view(r@)[j] == r@[j]@);
    lemma_places(listing, i, j);
}

/// Where two of the startup changes come from: two places of the listing, in
/// the same order.
proof fn lemma_places(listing: Seq<AgentConfigModel>, i: int, j: int)
    requires
        registry::listing::is_listing(listing),
        0 <= i < j < relay::startup_changes_of(listing).len(),
    ensures
        crate::text::lex_lt(
            relay::startup_changes_of(listing)[i].agent(),
            relay::startup_changes_of(listing)[j].agent(),
        ),
    decreases listing.len(),
{
    let front = listing.drop_last();
    let part = relay::startup_changes_of(front);
    let all = relay::startup_changes_of(listing);
    if j < part.len() {
        lemma_places(front, i, j);
    } else {
        relay::lemma_startup_adds_enabled(front, i);
        let p = choose|p: int|
            0 <= p < front.len() && (#[trigger] front[p]).enabled && part[i] == ChangeModel::Added(
                front[p],
            );
        assert(front[p] == listing[p]);
        assert(all[i] == part[i]);
        assert(all[j] == ChangeModel::Added(listing.last()));
        assert(listing[listing.len() - 1] == listing.last());
    }
}

/// What could not be done with the relay is told with the name that it was about
/// and, at the end, with the cause; it is the configuration that is at fault.
pub proof fn lemma_failures_told(id: AgentId, name: &str, cause: &str, e: AgentdError)
    requires
        call_ensures(relay::stream_not_created, (name, cause), e) || call_ensures(
            relay::stream_unavailable,
            (name, cause),
            e,
        ) || call_ensures(relay::credentials_unreadable, (name, cause), e) || call_ensures(
            relay::not_connected,
            (name, cause),
            e,
        ) || (call_ensures(relay::consumer_not_bound, (&id, cause), e) && name@ == id@),
    ensures
        e is Config,
        crate::text::has_suffix(e->Config_0@, cause@),
        exists|at: int|
            0 < at && at + name@.len() + cause@.len() < e->Config_0@.len()
                && #[trigger] e->Config_0@.subrange(at, at + name@.len()) == name@,
{
    reveal_strlit("cannot create stream ");
    reveal_strlit("stream ");
    reveal_strlit(" unavailable: ");
    reveal_strlit(": ");
    reveal_strlit("cannot read credentials ");
    reveal_strlit("cannot connect to ");
    reveal_strlit("cannot bind consumer for ");
    let m = e->Config_0@;
    assert(m.skip(m.len() - cause@.len()) =~= cause@);
    let n = name@.len() as int;
    if call_ensures(relay::stream_not_created, (name, cause), e) {
        assert(m.subrange(21, 21 + n) =~= name@);
    } else if call_ensures(relay::stream_unavailable, (name, cause), e) {
        assert(m.subrange(7, 7 + n) =~= name@);
    } else if call_ensures(relay::credentials_unreadable, (name, cause), e) {
        assert(m.subrange(24, 24 + n) =~= name@);
    } else if call_ensures(relay::not_connected, (name, cause), e) {
        assert(m.subrange(18, 18 + n) =~= name@);
    } else {
        assert(m.subrange(25, 25 + n) =~= name@);
    }
}

} // verus!
