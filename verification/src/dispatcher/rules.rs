//! Laws of the dispatcher, told by the arguments and the runs: what each
//! operation accepts, what it does, and what it leaves alone.

use vstd::prelude::*;

use crate::agent_id::AgentId;
use crate::dedup::DedupCheck;
use crate::dispatcher;
use crate::dispatcher::histories;
use crate::dispatcher::laws;
use crate::dispatcher::model;
use crate::dispatcher::model::{
    ActionModel, Delivery, DispatcherModel, Exit, LineModel, Report, RunModel, Scope, Stage,
};
use crate::dispatcher::proofs;
use crate::dispatcher::{Action, Dispatcher, Start, Step};
use crate::error::AgentdError;
use crate::event::EventEnvelope;
use crate::logging::{FieldModel, FieldValueModel, Level, Record, RecordModel};
use crate::registry;
use crate::registry::{AgentConfigModel, Registry};
use crate::text;

verus! {

// ---------------------------------------------------------------------------
// Admission
// ---------------------------------------------------------------------------

/// A delivery is accepted exactly where it is no larger than allowed, decodes
/// to an envelope of version 1 whose event id is not blank, is for the agent of
/// its consumer, and that agent is registered and enabled.
pub proof fn lemma_accepted_iff(
    m: DispatcherModel,
    agents: Map<Seq<char>, AgentConfigModel>,
    d: Delivery,
    decoded: Result<EventEnvelope, String>,
)
    ensures
        model::dispatch_of(m, agents, d, decoded).1 is Ok <==> {
            &&& d.raw@.len() <= m.max_event_bytes
            &&& decoded is Ok
            &&& decoded->Ok_0.version == 1
            &&& exists|i: int|
                0 <= i < decoded->Ok_0.event_id@.len() && !text::is_white(
                    #[trigger] decoded->Ok_0.event_id@[i],
                )
            &&& decoded->Ok_0.agent_id@ == d.agent@
            &&& agents.dom().contains(d.agent@)
            &&& agents[d.agent@].enabled
        },
        model::dispatch_of(m, agents, d, decoded).1 is Err ==> model::dispatch_of(
            m,
            agents,
            d,
            decoded,
        ).0 == m,
{
    if decoded is Ok {
        crate::event::laws::lemma_dispatchable(decoded->Ok_0);
    }
}

/// The same of the operation itself. A delivery that is refused leaves the
/// dispatcher as it was.
pub proof fn lemma_dispatch_accepts(
    dispatcher: &mut Dispatcher,
    registry: Registry,
    d: Delivery,
    decoded: Result<EventEnvelope, String>,
    r: Result<Start, Record>,
)
    requires
        old(dispatcher).well_formed(),
        registry.well_formed(),
        call_ensures(Dispatcher::dispatch, (dispatcher, &registry, d, decoded), r),
    ensures
        r is Ok <==> {
            &&& d.raw@.len() <= old(dispatcher)@.max_event_bytes
            &&& decoded is Ok
            &&& decoded->Ok_0.version == 1
            &&& exists|i: int|
                0 <= i < decoded->Ok_0.event_id@.len() && !text::is_white(
                    #[trigger] decoded->Ok_0.event_id@[i],
                )
            &&& decoded->Ok_0.agent_id@ == d.agent@
            &&& registry@.dom().contains(d.agent@)
            &&& registry@[d.agent@].enabled
        },
        r is Err ==> final(dispatcher)@ == old(dispatcher)@,
        final(dispatcher).well_formed(),
{
    lemma_accepted_iff(old(dispatcher)@, registry@, d, decoded);
}

/// Whether a delivery is accepted, and what is said of one that is not, does
/// not depend on where it stands in the stream or how often it was delivered,
/// nor on what else the bytes and the envelope hold.
pub proof fn lemma_position_does_not_count(
    m: DispatcherModel,
    agents: Map<Seq<char>, AgentConfigModel>,
    d: Delivery,
    e: Delivery,
    decoded: Result<EventEnvelope, String>,
)
    requires
        d.agent@ == e.agent@,
        d.raw@.len() == e.raw@.len(),
    ensures
        ({
            let a = model::dispatch_of(m, agents, d, decoded);
            let b = model::dispatch_of(m, agents, e, decoded);
            &&& a.1 is Ok <==> b.1 is Ok
            &&& a.1 is Err ==> a == b
            &&& a.1 is Ok ==> {
                &&& a.1->Ok_0.run == b.1->Ok_0.run
                &&& a.1->Ok_0.step == b.1->Ok_0.step
                &&& a.0.gate_of == b.0.gate_of
                &&& a.0.gates == b.0.gates
                &&& a.0.queue == b.0.queue
            }
        }),
{
}

/// Nor does it depend on what runs there are: a delivery is never refused for
/// want of a slot.
pub proof fn lemma_load_does_not_count(
    m: DispatcherModel,
    n: DispatcherModel,
    agents: Map<Seq<char>, AgentConfigModel>,
    d: Delivery,
    decoded: Result<EventEnvelope, String>,
)
    requires
        m.max_event_bytes == n.max_event_bytes,
    ensures
        model::dispatch_of(m, agents, d, decoded).1 is Ok <==> model::dispatch_of(
            n,
            agents,
            d,
            decoded,
        ).1 is Ok,
{
    lemma_accepted_iff(m, agents, d, decoded);
    lemma_accepted_iff(n, agents, d, decoded);
}

/// What is said of a delivery that is refused: a warning, once. It names the
/// agent where the agent is the reason, and the reason else.
pub proof fn lemma_refusal_says_why(
    m: DispatcherModel,
    agents: Map<Seq<char>, AgentConfigModel>,
    d: Delivery,
    decoded: Result<EventEnvelope, String>,
)
    requires
        model::dispatch_of(m, agents, d, decoded).1 is Err,
    ensures
        ({
            let r = model::dispatch_of(m, agents, d, decoded).1->Err_0;
            &&& r.level == Level::Warn
            &&& r.fields.len() == 1
            &&& d.raw@.len() > m.max_event_bytes ==> r.message == "invalid event"@
            &&& d.raw@.len() <= m.max_event_bytes && decoded is Err ==> {
                &&& r.message == "invalid event"@
                &&& r.fields[0].value == FieldValueModel::Text(
                    "invalid event envelope: "@ + ("unparseable JSON: "@ + decoded->Err_0@),
                )
            }
            &&& d.raw@.len() <= m.max_event_bytes && decoded is Ok && decoded->Ok_0.agent_id@
                != d.agent@ ==> r.message == "invalid event"@
            &&& r.message == "delivery for unregistered agent"@ || r.message
                == "delivery for disabled agent"@ ==> r.fields[0].value == FieldValueModel::Text(
                d.agent@,
            )
            &&& r.message == "delivery for unregistered agent"@ ==> !agents.dom().contains(d.agent@)
            &&& r.message == "delivery for disabled agent"@ ==> agents.dom().contains(d.agent@)
                && !agents[d.agent@].enabled
            &&& r.message == "invalid event"@ || r.message == "delivery for unregistered agent"@
                || r.message == "delivery for disabled agent"@
        }),
{
    reveal_strlit("invalid event");
    reveal_strlit("delivery for unregistered agent");
    reveal_strlit("delivery for disabled agent");
    assert("invalid event"@[0] != "delivery for unregistered agent"@[0]);
    assert("invalid event"@[0] != "delivery for disabled agent"@[0]);
    assert("delivery for unregistered agent"@[13] != "delivery for disabled agent"@[13]);
}

/// What an event is called too large for: for being larger than allowed.
pub proof fn lemma_oversize_iff(dispatcher: Dispatcher, size: usize, r: Option<Record>)
    requires
        call_ensures(Dispatcher::oversize, (&dispatcher, size), r),
    ensures
        r is Some <==> size > dispatcher@.max_event_bytes,
        r is Some ==> r->0@.level == Level::Warn,
{
}

/// What a run of an accepted delivery is made of: of the delivery, of its
/// envelope, and of the registration of its agent; nothing is made up.
pub proof fn lemma_run_is_of_delivery(
    m: DispatcherModel,
    agents: Map<Seq<char>, AgentConfigModel>,
    d: Delivery,
    decoded: Result<EventEnvelope, String>,
)
    requires
        model::coherent(m),
        histories::all_valid(agents),
        model::dispatch_of(m, agents, d, decoded).1 is Ok,
    ensures
        ({
            let (n, outcome) = model::dispatch_of(m, agents, d, decoded);
            let start = outcome->Ok_0;
            let x = n.runs[start.run]->0;
            let c = agents[d.agent@];
            &&& 0 <= start.run < n.runs.len()
            &&& n.runs[start.run] is Some
            &&& model::stage_of(m, start.run) is None
            &&& x.agent == d.agent@
            &&& x.event_id == decoded->Ok_0.event_id@
            &&& x.event_type == decoded->Ok_0.event_type@
            &&& x.raw == d.raw@
            &&& x.stream_sequence == d.stream_sequence
            &&& x.consumer_sequence == d.consumer_sequence
            &&& x.delivery_count == d.delivery_count
            &&& x.handler == c.handler
            &&& x.working_directory == c.working_directory
            &&& x.gate == n.gate_of[d.agent@]
            &&& x.stage == Stage::Looking || x.stage == Stage::Waiting
            &&& x.stage == Stage::Waiting <==> model::held(m.runs, x.gate) >= n.gates[x.gate]
            &&& x.stage == Stage::Looking <==> start.step.action is LookUp
            &&& x.stage == Stage::Waiting <==> start.step.action is Queue
            &&& start.step.woken is None
        }),
{
    let c = agents[d.agent@];
    proofs::lemma_with_gate(m, d.agent@, c.max_concurrency as int);
    let n = model::with_gate(m, d.agent@, c.max_concurrency as int);
    proofs::lemma_free_number(n.runs, 0);
}

/// Taking a delivery up leaves the runs that there are, and every gate that an
/// agent has, as they are; it makes none for another agent.
pub proof fn lemma_dispatch_touches_no_other(
    m: DispatcherModel,
    agents: Map<Seq<char>, AgentConfigModel>,
    d: Delivery,
    decoded: Result<EventEnvelope, String>,
    i: int,
    agent: Seq<char>,
)
    requires
        model::coherent(m),
        histories::all_valid(agents),
    ensures
        ({
            let n = model::dispatch_of(m, agents, d, decoded).0;
            &&& n.max_event_bytes == m.max_event_bytes
            &&& n.slow == m.slow
            &&& model::stage_of(m, i) is Some ==> i < n.runs.len() && n.runs[i] == m.runs[i]
            &&& m.gate_of.dom().contains(agent) ==> n.gate_of.dom().contains(agent)
                && n.gate_of[agent] == m.gate_of[agent] && n.gates[n.gate_of[agent]]
                == m.gates[m.gate_of[agent]]
            &&& agent != d.agent@ ==> n.gate_of.dom().contains(agent)
                == m.gate_of.dom().contains(agent)
            &&& forall|k: int| 0 <= k < m.queue.len() ==> k < n.queue.len() && #[trigger] n.queue[k]
                == m.queue[k]
        }),
{
    if model::rejection(m, agents, d, decoded) is None {
        let c = agents[d.agent@];
        proofs::lemma_with_gate(m, d.agent@, c.max_concurrency as int);
        proofs::lemma_fresh_gate(m, 0);
        proofs::lemma_free_number(m.runs, 0);
        if m.gate_of.dom().contains(agent) {
            assert(model::gate_in_use(m, m.gate_of[agent]));
        }
    }
}

/// What a dispatch is logged with: the agent, the event, the consumer and the
/// place in the stream.
pub proof fn lemma_dispatch_span(
    m: DispatcherModel,
    agents: Map<Seq<char>, AgentConfigModel>,
    d: Delivery,
    decoded: Result<EventEnvelope, String>,
)
    requires
        model::dispatch_of(m, agents, d, decoded).1 is Ok,
    ensures
        ({
            let start = model::dispatch_of(m, agents, d, decoded).1->Ok_0;
            let f = start.span.fields;
            &&& f.len() == 4
            &&& f[0] == (FieldModel {
                name: "agent_id"@,
                value: FieldValueModel::Text(d.agent@),
            })
            &&& f[1] == (FieldModel {
                name: "event_id"@,
                value: FieldValueModel::Text(decoded->Ok_0.event_id@),
            })
            &&& f[2] == (FieldModel {
                name: "consumer"@,
                value: FieldValueModel::Text("agent-"@ + d.agent@),
            })
            &&& f[3] == (FieldModel {
                name: "stream_sequence"@,
                value: FieldValueModel::Unsigned(d.stream_sequence as int),
            })
            &&& start.step.log.len() == 1
            &&& start.step.log[0].scope == Scope::Dispatch
            &&& start.step.log[0].record.message == "event received"@
        }),
{
}

// ---------------------------------------------------------------------------
// Slots
// ---------------------------------------------------------------------------

/// A new dispatcher allows events of the given size and calls handlers slow
/// after the given seconds; it has no runs.
pub proof fn lemma_new(slow_secs: u64, max_bytes: usize, d: Dispatcher)
    requires
        call_ensures(Dispatcher::new, (slow_secs, max_bytes), d),
    ensures
        d.well_formed(),
        d@.max_event_bytes == max_bytes,
        d@.slow == slow_secs * 1000 * 1000 * 1000,
        forall|run: int| (#[trigger] model::stage_of(d@, run)) is None,
        forall|a: Seq<char>| !#[trigger] d@.gate_of.dom().contains(a),
{
}

/// The free slots of an agent that is registered and enabled, and stays as it
/// is registered, are its slots less its runs under way; any other agent has
/// none. Asking changes no run, and no gate that there is.
pub proof fn lemma_available(
    dispatcher: &mut Dispatcher,
    registry: Registry,
    agent: AgentId,
    n: usize,
)
    requires
        old(dispatcher).well_formed(),
        registry.well_formed(),
        call_ensures(Dispatcher::available, (dispatcher, &registry, &agent), n),
        registry@.dom().contains(agent@) ==> histories::at_one_gate(
            old(dispatcher)@,
            agent@,
            registry@[agent@].max_concurrency as int,
        ),
    ensures
        registry@.dom().contains(agent@) && registry@[agent@].enabled ==> n
            == registry@[agent@].max_concurrency - histories::runs_under_way(
            old(dispatcher)@.runs,
            agent@,
        ),
        !(registry@.dom().contains(agent@) && registry@[agent@].enabled) ==> n == 0,
        final(dispatcher)@.runs == old(dispatcher)@.runs,
        final(dispatcher)@.queue == old(dispatcher)@.queue,
        final(dispatcher)@.max_event_bytes == old(dispatcher)@.max_event_bytes,
        final(dispatcher)@.slow == old(dispatcher)@.slow,
        old(dispatcher)@.gate_of.dom().contains(agent@) ==> final(dispatcher)@ == old(dispatcher)@,
{
    let m = old(dispatcher)@;
    old(dispatcher).lemma_well_formed();
    if registry@.dom().contains(agent@) && registry@[agent@].enabled {
        let slots = registry@[agent@].max_concurrency as int;
        registry::laws::lemma_registered_agents(registry, agent@);
        proofs::lemma_with_gate(m, agent@, slots);
        histories::lemma_under_way_held(m, agent@, slots);
    }
}

/// Changes take the gates of the agents concerned and nothing else.
pub proof fn lemma_changes_take_gates(
    dispatcher: &mut Dispatcher,
    changes: Vec<registry::Change>,
    agent: Seq<char>,
)
    requires
        old(dispatcher).well_formed(),
        call_ensures(Dispatcher::apply_changes, (dispatcher, &changes), ()),
    ensures
        final(dispatcher)@.runs == old(dispatcher)@.runs,
        final(dispatcher)@.queue == old(dispatcher)@.queue,
        final(dispatcher)@.gates == old(dispatcher)@.gates,
        final(dispatcher)@.max_event_bytes == old(dispatcher)@.max_event_bytes,
        final(dispatcher)@.slow == old(dispatcher)@.slow,
        final(dispatcher)@.gate_of.dom().contains(agent) <==> old(dispatcher)@.gate_of.dom().contains(agent) && !exists|k: int|
            0 <= k < changes@.len() && (#[trigger] changes@[k])@.agent() == agent,
        final(dispatcher)@.gate_of.dom().contains(agent) ==> final(dispatcher)@.gate_of[agent]
            == old(dispatcher)@.gate_of[agent],
{
    let all = registry::changes_view(changes@);
    assert(forall|k: int| 0 <= k < changes@.len() ==> all[k] == (#[trigger] changes@[k])@);
    if registry::diff::mentions(all, agent) {
        let k = choose|k: int| 0 <= k < all.len() && (#[trigger] all[k]).agent() == agent;
        assert(changes@[k]@.agent() == agent);
    }
    if exists|k: int| 0 <= k < changes@.len() && (#[trigger] changes@[k])@.agent() == agent {
        let k = choose|k: int|
            0 <= k < changes@.len() && (#[trigger] changes@[k])@.agent() == agent;
        assert(all[k].agent() == agent);
    }
}

/// The events of an agent being handled are as many as its runs whose handler
/// is being started, is running or has its completion recorded.
pub proof fn lemma_in_flight(dispatcher: Dispatcher, agent: AgentId, n: usize)
    requires
        dispatcher.well_formed(),
        call_ensures(Dispatcher::in_flight, (&dispatcher, &agent), n),
    ensures
        n == histories::events_in_flight(dispatcher@, agent@).len(),
        forall|e: Seq<char>|
            #![trigger histories::events_in_flight(dispatcher@, agent@).contains(e)]
            histories::events_in_flight(dispatcher@, agent@).contains(e) <==> exists|i: int|
                0 <= i < dispatcher@.runs.len() && (#[trigger] dispatcher@.runs[i]) is Some
                    && dispatcher@.runs[i]->0.agent == agent@ && dispatcher@.runs[i]->0.event_id
                    == e && (dispatcher@.runs[i]->0.stage == Stage::Spawning
                    || dispatcher@.runs[i]->0.stage == Stage::Running
                    || dispatcher@.runs[i]->0.stage == Stage::Marking),
{
    let m = dispatcher@;
    dispatcher.lemma_well_formed();
    histories::lemma_in_flight_counts_events(m, agent@);
    assert forall|e: Seq<char>|
        #![trigger histories::events_in_flight(m, agent@).contains(e)]
        histories::events_in_flight(m, agent@).contains(e) <==> exists|i: int|
            0 <= i < m.runs.len() && (#[trigger] m.runs[i]) is Some && m.runs[i]->0.agent == agent@
                && m.runs[i]->0.event_id == e && (m.runs[i]->0.stage == Stage::Spawning
                || m.runs[i]->0.stage == Stage::Running || m.runs[i]->0.stage
                == Stage::Marking) by {
        if model::is_in_flight(m, agent@, e) {
            let i = choose|i: int|
                0 <= i < m.runs.len() && model::handles(#[trigger] m.runs[i], agent@, e);
            assert(m.runs[i] is Some);
        }
        if exists|i: int|
            0 <= i < m.runs.len() && (#[trigger] m.runs[i]) is Some && m.runs[i]->0.agent == agent@
                && m.runs[i]->0.event_id == e && (m.runs[i]->0.stage == Stage::Spawning
                || m.runs[i]->0.stage == Stage::Running || m.runs[i]->0.stage == Stage::Marking) {
            let i = choose|i: int|
                0 <= i < m.runs.len() && (#[trigger] m.runs[i]) is Some && m.runs[i]->0.agent
                    == agent@ && m.runs[i]->0.event_id == e && (m.runs[i]->0.stage
                    == Stage::Spawning || m.runs[i]->0.stage == Stage::Running
                    || m.runs[i]->0.stage == Stage::Marking);
            assert(model::handles(m.runs[i], agent@, e));
        }
    }
}

// ---------------------------------------------------------------------------
// Reports
// ---------------------------------------------------------------------------

/// Whether another run is at work on an event of an agent: its handler is being
/// started, is running or has its completion recorded.
pub open spec fn at_work_elsewhere(m: DispatcherModel, run: int) -> bool {
    exists|i: int|
        0 <= i < m.runs.len() && i != run && (#[trigger] m.runs[i]) is Some && m.runs[i]->0.agent
            == m.runs[run]->0.agent && m.runs[i]->0.event_id == m.runs[run]->0.event_id && (
        m.runs[i]->0.stage == Stage::Spawning || m.runs[i]->0.stage == Stage::Running
            || m.runs[i]->0.stage == Stage::Marking)
}

/// What each report leads to. A lookup that finds the event acknowledges it;
/// one that does not, or fails, starts the handler unless another run is at
/// work on the event, and else ends the run. A handler that started is
/// supervised, one that did not is terminated. A handler that ended is
/// recorded, whatever its status; a record, made or not, is acknowledged; and an
/// answer, confirmed or not, ends the run. A report that is not due is ignored.
pub proof fn lemma_reports_decide(
    dispatcher: &mut Dispatcher,
    run: usize,
    report: Report,
    r: Option<Step>,
)
    requires
        old(dispatcher).well_formed(),
        call_ensures(Dispatcher::advance, (dispatcher, run, report), r),
    ensures
        r is Some <==> match report {
            Report::Found(_) => model::stage_of(old(dispatcher)@, run as int) == Some(
                Stage::Looking,
            ),
            Report::Spawned(_) => model::stage_of(old(dispatcher)@, run as int) == Some(
                Stage::Spawning,
            ),
            Report::Exited { .. } => model::stage_of(old(dispatcher)@, run as int) == Some(
                Stage::Running,
            ),
            Report::Marked(_) => model::stage_of(old(dispatcher)@, run as int) == Some(
                Stage::Marking,
            ),
            Report::Acked(_) => model::stage_of(old(dispatcher)@, run as int) == Some(
                Stage::Acking,
            ),
            Report::Termed => model::stage_of(old(dispatcher)@, run as int) == Some(
                Stage::Terming,
            ),
        },
        r is None ==> final(dispatcher)@ == old(dispatcher)@,
        r is Some ==> match report {
            Report::Found(found) => {
                let hit = found is Ok && found->Ok_0;
                let busy = at_work_elsewhere(old(dispatcher)@, run as int);
                &&& r->0@.action is Ack <==> hit
                &&& r->0@.action is Spawn <==> !hit && !busy
                &&& r->0@.action is Finish <==> !hit && busy
            },
            Report::Spawned(outcome) => {
                &&& r->0@.action is Supervise <==> outcome is Ok
                &&& r->0@.action is Term <==> outcome is Err
            },
            Report::Exited { .. } => r->0@.action is Mark,
            Report::Marked(_) => r->0@.action is Ack,
            Report::Acked(_) => r->0@.action is Finish,
            Report::Termed => r->0@.action is Finish,
        },
        final(dispatcher).well_formed(),
{
    let m = old(dispatcher)@;
    let i = run as int;
    if report is Found && r is Some {
        let x = m.runs[i]->0;
        if model::is_in_flight(m, x.agent, x.event_id) {
            let k = choose|k: int|
                0 <= k < m.runs.len() && model::handles(#[trigger] m.runs[k], x.agent, x.event_id);
            assert(m.runs[k] is Some && k != i);
        }
        if at_work_elsewhere(m, i) {
            let k = choose|k: int|
                0 <= k < m.runs.len() && k != i && (#[trigger] m.runs[k]) is Some
                    && m.runs[k]->0.agent == x.agent && m.runs[k]->0.event_id == x.event_id && (
                m.runs[k]->0.stage == Stage::Spawning || m.runs[k]->0.stage == Stage::Running
                    || m.runs[k]->0.stage == Stage::Marking);
            assert(model::handles(m.runs[k], x.agent, x.event_id));
        }
    }
}

/// Where a report brings its run to.
pub proof fn lemma_reports_move(m: DispatcherModel, run: int, report: Report)
    requires
        model::coherent(m),
        model::advance_of(m, run, report) is Some,
    ensures
        ({
            let (n, step) = model::advance_of(m, run, report)->0;
            let stage = model::stage_of(n, run);
            &&& step.action is Ack ==> stage == Some(Stage::Acking)
            &&& step.action is Term ==> stage == Some(Stage::Terming)
            &&& step.action is Spawn ==> stage == Some(Stage::Spawning)
            &&& step.action is Supervise ==> stage == Some(Stage::Running)
            &&& step.action is Mark ==> stage == Some(Stage::Marking)
            &&& step.action is Finish ==> stage is None
            &&& n.max_event_bytes == m.max_event_bytes
            &&& n.slow == m.slow
            &&& n.gates == m.gates
            &&& n.gate_of == m.gate_of
            &&& step.woken is Some ==> step.action is Finish
            &&& !(step.action is Finish) ==> n.queue == m.queue
        }),
{
    if m.runs[run]->0.stage != Stage::Spawning && !model::active(m.runs[run]) {
        proofs::lemma_released(m, run);
    }
}

/// What a handler is started with: the program and the directory of the run,
/// the bytes of its message, and six variables that name its agent, its event
/// and where that came from. Each variable stands once.
pub proof fn lemma_handler_gets(m: DispatcherModel, run: int, report: Report)
    requires
        model::advance_of(m, run, report) is Some,
        (model::advance_of(m, run, report)->0).1.action is Spawn,
    ensures
        ({
            let plan = (model::advance_of(m, run, report)->0).1.action->Spawn_0;
            let x = m.runs[run]->0;
            &&& plan.program == x.handler
            &&& plan.working_directory == x.working_directory
            &&& plan.stdin == x.raw
            &&& plan.env.len() == 6
            &&& plan.env[0] == ("AGENTD_AGENT_ID"@, x.agent)
            &&& plan.env[1] == ("AGENTD_EVENT_ID"@, x.event_id)
            &&& plan.env[2] == ("AGENTD_EVENT_TYPE"@, x.event_type)
            &&& plan.env[3].0 == "AGENTD_STREAM_SEQUENCE"@
            &&& plan.env[4].0 == "AGENTD_CONSUMER_SEQUENCE"@
            &&& plan.env[5].0 == "AGENTD_DELIVERY_COUNT"@
            &&& x.stream_sequence >= 0 ==> text::laws::value_of(plan.env[3].1) == x.stream_sequence
            &&& x.consumer_sequence >= 0 ==> text::laws::value_of(plan.env[4].1)
                == x.consumer_sequence
            &&& x.delivery_count >= 0 ==> text::laws::value_of(plan.env[5].1) == x.delivery_count
        }),
{
    let x = m.runs[run]->0;
    text::laws::lemma_decimal_denotes(x.stream_sequence as nat);
    text::laws::lemma_decimal_denotes(x.consumer_sequence as nat);
    text::laws::lemma_decimal_denotes(x.delivery_count as nat);
}

/// The exit status of a process: its code where it has one, else the negated
/// number of the signal that ended it, else -1.
pub proof fn lemma_exit_status(code: Option<i32>, signal: Option<i32>, r: i32)
    requires
        signal != Some(i32::MIN),
        call_ensures(dispatcher::exit_status_of, (code, signal), r),
    ensures
        code is Some ==> r == code->0,
        code is None && signal is Some ==> r + signal->0 == 0,
        code is None && signal is None ==> r == -1,
{
}

/// Whether a line of a log is of a handler that ended, with its status and its
/// running time.
pub open spec fn tells_exit(l: LineModel, status: int, ms: int) -> bool {
    &&& l.scope == Scope::Handler
    &&& l.record.level == Level::Info
    &&& l.record.message == "handler exited"@
    &&& l.record.fields.len() == 2
    &&& l.record.fields[0] == (FieldModel {
        name: "exit_status"@,
        value: FieldValueModel::Signed(status),
    })
    &&& l.record.fields[1] == (FieldModel {
        name: "duration_ms"@,
        value: FieldValueModel::Unsigned(ms),
    })
}

/// What is logged of a handler that ended: its status and how many whole
/// milliseconds it ran; that it could not be waited for, where it could not; and
/// that it was slow, exactly where it ran for longer than the threshold.
pub proof fn lemma_exit_is_told(m: DispatcherModel, run: int, exit: Exit, elapsed: u128)
    ensures
        ({
            let log = model::exited_to(m, run, exit, elapsed).1.log;
            let failed = if exit is WaitFailed {
                1int
            } else {
                0
            };
            let slow = if elapsed > m.slow {
                1int
            } else {
                0
            };
            let ms = (elapsed / 1_000_000) as int;
            let status: int = match exit {
                Exit::Status { code: Some(c), .. } => c as int,
                Exit::Status { code: None, signal: Some(s) } => 0 - s,
                _ => -1,
            };
            &&& log.len() == failed + 1 + slow
            &&& ms <= u64::MAX ==> tells_exit(log[failed], status, ms)
            &&& failed == 1 ==> log[0].record.level == Level::Error && log[0].scope == Scope::Bare
            &&& slow == 1 ==> log[failed + 1].record.level == Level::Warn && log[failed + 1].scope
                == Scope::Bare && log[failed + 1].record.fields.len() == 3
        }),
{
}

/// What is logged of the other reports. A hit and a dropped copy are told, as is
/// every start of a handler, made or failed, and every answer, confirmed or not;
/// a failure of the store is told as an error, and never stops anything.
pub proof fn lemma_reports_are_told(m: DispatcherModel, run: int, report: Report)
    requires
        model::advance_of(m, run, report) is Some,
    ensures
        ({
            let step = (model::advance_of(m, run, report)->0).1;
            let log = step.log;
            match report {
                Report::Found(found) => {
                    let failed = if found is Err {
                        1int
                    } else {
                        0
                    };
                    &&& step.action is Ack ==> log.len() == 1 && log[0].scope == Scope::Dispatch
                        && log[0].record.message == "dedup hit"@
                    &&& step.action is Spawn ==> log.len() == failed
                    &&& step.action is Finish ==> log.len() == failed + 1 && log[failed].scope
                        == Scope::Dispatch && log[failed].record.message
                        == "in-flight duplicate dropped"@ && log[failed].record.level == Level::Warn
                    &&& failed == 1 ==> log[0].record.level == Level::Error
                        && log[0].record.message == "dedup lookup failed; dispatching anyway: "@
                        + found->Err_0.message()
                },
                Report::Spawned(outcome) => {
                    &&& log.len() == 1
                    &&& log[0].record.fields[0].value == FieldValueModel::Text(
                        m.runs[run]->0.handler,
                    )
                    &&& outcome is Ok ==> log[0].scope == Scope::Handler && log[0].record.message
                        == "handler spawned"@ && log[0].record.fields[1].value
                        == FieldValueModel::Unsigned(outcome->Ok_0 as int)
                    &&& outcome is Err ==> log[0].scope == Scope::Dispatch
                        && log[0].record.message == "handler spawn failed"@
                        && log[0].record.fields[1].value == FieldValueModel::Text(outcome->Err_0@)
                },
                Report::Exited { .. } => true,
                Report::Marked(outcome) => {
                    &&& outcome is Ok ==> log.len() == 0
                    &&& outcome is Err ==> log.len() == 1 && log[0].record.level == Level::Error
                        && log[0].record.message == "dedup mark failed; acking anyway: "@
                        + outcome->Err_0.message()
                },
                Report::Acked(outcome) => {
                    &&& log.len() == 1
                    &&& log[0].scope == Scope::Dispatch
                    &&& outcome is Ok ==> log[0].record.message == "ack succeeded"@
                        && log[0].record.level == Level::Info
                    &&& outcome is Err ==> log[0].record.message == "ack failed"@
                        && log[0].record.level == Level::Warn && log[0].record.fields[0].value
                        == FieldValueModel::Text(outcome->Err_0@)
                },
                Report::Termed => log.len() == 0,
            }
        }),
{
}

/// What the store is asked: of the run's own event, for the run's own agent.
/// Its answer decides, as a report does.
pub proof fn lemma_look_up<D: DedupCheck>(
    dispatcher: &mut Dispatcher,
    run: usize,
    dedup: D,
    r: Option<Step>,
)
    requires
        old(dispatcher).well_formed(),
        call_ensures(Dispatcher::look_up::<D>, (dispatcher, run, &dedup), r),
    ensures
        r is Some <==> model::stage_of(old(dispatcher)@, run as int) == Some(Stage::Looking),
        r is None ==> final(dispatcher)@ == old(dispatcher)@,
        r is Some ==> exists|found: Result<bool, AgentdError>|
            #[trigger] dedup.answers(
                old(dispatcher)@.runs[run as int]->0.agent,
                old(dispatcher)@.runs[run as int]->0.event_id,
                found,
            ) && (r->0@.action is Ack <==> found is Ok && found->Ok_0) && (final(dispatcher)@ == (model::advance_of(old(dispatcher)@, run as int, Report::Found(found))->0).0),
{
}

/// What the store is told: the run's own event, of the run's own agent; and the
/// delivery is acknowledged whatever it says.
pub proof fn lemma_mark<D: DedupCheck>(
    dispatcher: &mut Dispatcher,
    run: usize,
    dedup: &mut D,
    r: Option<Step>,
)
    requires
        old(dispatcher).well_formed(),
        call_ensures(Dispatcher::mark::<D>, (dispatcher, run, dedup), r),
    ensures
        r is Some <==> model::stage_of(old(dispatcher)@, run as int) == Some(Stage::Marking),
        r is None ==> final(dispatcher)@ == old(dispatcher)@ && *final(dedup) == *old(dedup),
        r is Some ==> r->0@.action is Ack,
        r is Some ==> exists|outcome: Result<(), AgentdError>|
            #[trigger] old(dedup).records(
                old(dispatcher)@.runs[run as int]->0.agent,
                old(dispatcher)@.runs[run as int]->0.event_id,
                outcome,
                final(dedup),
            ),
{
}

/// The stage that is told of a run is the one that it is at.
pub proof fn lemma_stage(dispatcher: Dispatcher, run: usize, r: Option<Stage>)
    requires
        call_ensures(Dispatcher::stage, (&dispatcher, run), r),
    ensures
        r is Some <==> run < dispatcher@.runs.len() && dispatcher@.runs[run as int] is Some,
        r is Some ==> r->0 == dispatcher@.runs[run as int]->0.stage,
{
}

/// A failure to feed a handler is told unless the handler closed its input.
pub proof fn lemma_stdin_failure(broken_pipe: bool, cause: &str, r: Option<Record>)
    requires
        call_ensures(dispatcher::stdin_failure, (broken_pipe, cause), r),
    ensures
        r is Some <==> !broken_pipe,
        r is Some ==> r->0@.level == Level::Debug && r->0@.message
            == "handler stdin write failed: "@ + cause@,
{
}

/// A report does to the dispatcher, and leads to, what its stage and it say; and
/// nothing else.
pub proof fn lemma_advanced(
    dispatcher: &mut Dispatcher,
    run: usize,
    report: Report,
    r: Option<Step>,
)
    requires
        old(dispatcher).well_formed(),
        call_ensures(Dispatcher::advance, (dispatcher, run, report), r),
    ensures
        r is Some <==> model::advance_of(old(dispatcher)@, run as int, report) is Some,
        r is Some ==> model::advance_of(old(dispatcher)@, run as int, report) == Some(
            (final(dispatcher)@, r->0@),
        ),
{
}

/// A delivery does to the dispatcher, and starts, what it holds and its agent's
/// registration say; and nothing else.
pub proof fn lemma_dispatched(
    dispatcher: &mut Dispatcher,
    registry: Registry,
    d: Delivery,
    decoded: Result<EventEnvelope, String>,
    r: Result<Start, Record>,
)
    requires
        old(dispatcher).well_formed(),
        registry.well_formed(),
        call_ensures(Dispatcher::dispatch, (dispatcher, &registry, d, decoded), r),
    ensures
        ({
            let (m, outcome) = model::dispatch_of(old(dispatcher)@, registry@, d, decoded);
            &&& final(dispatcher)@ == m
            &&& r is Ok <==> outcome is Ok
            &&& r is Ok ==> r->Ok_0@ == outcome->Ok_0
            &&& r is Err ==> r->Err_0@ == outcome->Err_0
        }),
{
}

/// A report that does not end its run leaves the run what it is: its agent, its
/// event, where that came from, its handler and its gate; and its bytes, until
/// the handler is started with them.
pub proof fn lemma_run_stays_itself(m: DispatcherModel, run: int, report: Report)
    requires
        model::advance_of(m, run, report) is Some,
        !((model::advance_of(m, run, report)->0).1.action is Finish),
    ensures
        ({
            let (n, step) = model::advance_of(m, run, report)->0;
            let x = m.runs[run]->0;
            let y = n.runs[run]->0;
            &&& n.runs.len() == m.runs.len()
            &&& n.runs[run] is Some
            &&& y.agent == x.agent
            &&& y.event_id == x.event_id
            &&& y.event_type == x.event_type
            &&& y.stream_sequence == x.stream_sequence
            &&& y.consumer_sequence == x.consumer_sequence
            &&& y.delivery_count == x.delivery_count
            &&& y.handler == x.handler
            &&& y.working_directory == x.working_directory
            &&& y.gate == x.gate
            &&& !(step.action is Spawn) ==> y.raw == x.raw
            &&& step.action is Spawn ==> y.raw.len() == 0
        }),
{
}

/// What the records about a handler that ended hold: the cause and the agent,
/// where it could not be waited for; the agent, the handler and the running
/// time, where it was slow. A running time is told in whole milliseconds, as
/// far as they fit.
pub proof fn lemma_exit_records(m: DispatcherModel, run: int, exit: Exit, elapsed: u128)
    ensures
        ({
            let log = model::exited_to(m, run, exit, elapsed).1.log;
            let x = m.runs[run]->0;
            let failed = if exit is WaitFailed {
                1int
            } else {
                0
            };
            let ms = (elapsed as int / 1_000_000) % (u64::MAX + 1);
            &&& log[failed].record.fields[1].value == FieldValueModel::Unsigned(ms)
            &&& exit matches Exit::WaitFailed(e) ==> log[0].record.message
                == "failed to wait for handler: "@ + e@ && log[0].record.fields.len() == 1
                && log[0].record.fields[0].value == FieldValueModel::Text(x.agent)
            &&& elapsed > m.slow ==> {
                let slow = log[failed + 1].record;
                &&& slow.message
                    == "handler exceeded the slow-handler warning threshold; not a timeout"@
                &&& slow.fields[0].value == FieldValueModel::Text(x.agent)
                &&& slow.fields[1].value == FieldValueModel::Text(x.handler)
                &&& slow.fields[2].value == FieldValueModel::Unsigned(ms)
            }
        }),
{
}

/// How serious the records of a run are, and whom they name. Failures of the
/// store are errors about the run's agent, outside the span of the dispatch; a
/// handler that did not start is a warning; and a handler is supervised under
/// its path and its process number.
pub proof fn lemma_records_name_the_run(m: DispatcherModel, run: int, report: Report)
    requires
        model::advance_of(m, run, report) is Some,
    ensures
        ({
            let step = (model::advance_of(m, run, report)->0).1;
            let log = step.log;
            let x = m.runs[run]->0;
            match report {
                Report::Found(found) => {
                    &&& step.action is Ack ==> log[0].record.level == Level::Info
                        && log[0].record.fields.len() == 0
                    &&& found is Err ==> log[0].scope == Scope::Bare
                        && log[0].record.fields.len() == 1 && log[0].record.fields[0].value
                        == FieldValueModel::Text(x.agent)
                },
                Report::Spawned(outcome) => {
                    &&& outcome is Ok ==> log[0].record.level == Level::Info
                    &&& outcome is Err ==> log[0].record.level == Level::Warn
                    &&& outcome is Ok ==> step.action is Supervise
                    &&& outcome is Ok ==> {
                        let span = step.action->Supervise_0;
                        &&& span.fields.len() == 2
                        &&& span.fields[0].value == FieldValueModel::Text(x.handler)
                        &&& span.fields[1].value == FieldValueModel::Unsigned(
                            outcome->Ok_0 as int,
                        )
                    }
                },
                Report::Marked(outcome) => outcome is Err ==> log[0].scope == Scope::Bare
                    && log[0].record.fields.len() == 1 && log[0].record.fields[0].value
                    == FieldValueModel::Text(x.agent),
                _ => true,
            }
        }),
{
}

/// What the dispatcher asks for is what the model says: each action is its own,
/// and a handler is started with the program, the variables, the directory and
/// the bytes of the plan.
pub proof fn lemma_asked_for(s: Step, i: int)
    ensures
        s.action is Queue <==> s@.action is Queue,
        s.action is LookUp <==> s@.action is LookUp,
        s.action is Spawn <==> s@.action is Spawn,
        s.action is Supervise <==> s@.action is Supervise,
        s.action is Mark <==> s@.action is Mark,
        s.action is Ack <==> s@.action is Ack,
        s.action is Term <==> s@.action is Term,
        s.action is Finish <==> s@.action is Finish,
        s.woken is Some <==> s@.woken is Some,
        s.woken is Some ==> s@.woken == Some(s.woken->0 as int),
        s@.log.len() == s.log@.len(),
        0 <= i < s.log@.len() ==> s@.log[i].scope == s.log@[i].scope && s@.log[i].record
            == s.log@[i].record@,
        s.action matches Action::Supervise(span) ==> s@.action == ActionModel::Supervise(span@),
        s.action matches Action::Spawn(p) ==> {
            let q = s@.action->Spawn_0;
            &&& q.program == p.program@
            &&& q.stdin == p.stdin@
            &&& q.working_directory is Some <==> p.working_directory is Some
            &&& q.working_directory is Some ==> q.working_directory->0 == p.working_directory->0@
            &&& q.env.len() == p.env@.len()
            &&& 0 <= i < p.env@.len() ==> q.env[i].0 == p.env@[i].name@ && q.env[i].1
                == p.env@[i].value@
        },
{
}

} // verus!
