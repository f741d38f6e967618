//! Laws of the dispatcher.

use vstd::prelude::*;

use crate::dedup;
use crate::dedup::{DedupCheck, DedupStore};
use crate::dispatcher::model;
use crate::dispatcher::model::{
    ActionModel, Delivery, DispatcherModel, Exit, Report, RunModel, Stage,
};
use crate::dispatcher::proofs;
use crate::error::AgentdError;
use crate::event::EventEnvelope;
use crate::registry;
use crate::registry::AgentConfigModel;
use crate::text;

verus! {

/// Whether the relay was asked for the one answer that a run gets.
pub open spec fn answered(stage: Stage) -> bool {
    stage == Stage::Acking || stage == Stage::Terming
}

/// Whether an action asks the relay for an answer.
pub open spec fn is_answer(action: ActionModel) -> bool {
    action is Ack || action is Term
}

/// A run answers once. A step asks for an answer exactly where it brings the
/// run from a stage without one to a stage with one; a run that was answered
/// can only end; and a run ends without an answer only where its event is
/// being handled by another run.
pub proof fn lemma_one_answer(m: DispatcherModel, run: int, report: Report)
    requires
        model::coherent(m),
        model::advance_of(m, run, report) is Some,
    ensures
        ({
            let (n, step) = model::advance_of(m, run, report)->0;
            let before = model::stage_of(m, run)->0;
            let after = model::stage_of(n, run);
            &&& is_answer(step.action) <==> !answered(before) && after is Some && answered(
                after->0,
            )
            &&& step.action is Finish <==> after is None
            &&& answered(before) ==> after is None
            &&& after is None && !answered(before) ==> before == Stage::Looking
                && model::is_in_flight(m, m.runs[run]->0.agent, m.runs[run]->0.event_id)
        }),
{
    if m.runs[run]->0.stage != Stage::Spawning && !model::active(m.runs[run]) {
        proofs::lemma_released(m, run);
    }
}

/// What a step does to the other runs: nothing, except that one that waited
/// may have its turn. So a run keeps its agent, its event and the bytes of its
/// message until its handler is started with them.
pub proof fn lemma_others_unchanged(m: DispatcherModel, run: int, report: Report, other: int)
    requires
        model::coherent(m),
        model::advance_of(m, run, report) is Some,
        0 <= other < m.runs.len(),
        other != run,
    ensures
        ({
            let (n, step) = model::advance_of(m, run, report)->0;
            &&& n.runs.len() == m.runs.len()
            &&& step.woken == Some(other) ==> m.runs[other] is Some && m.runs[other]->0.stage
                == Stage::Waiting && n.runs[other] == Some(
                RunModel { stage: Stage::Looking, ..m.runs[other]->0 },
            )
            &&& step.woken != Some(other) ==> n.runs[other] == m.runs[other]
        }),
{
    if m.runs[run]->0.stage != Stage::Spawning && !model::active(m.runs[run]) {
        proofs::lemma_released(m, run);
    }
}

/// A delivery is terminated after its admission only where its handler did not
/// start.
pub proof fn lemma_terminated_unless_started(m: DispatcherModel, run: int, report: Report)
    requires
        model::advance_of(m, run, report) is Some,
    ensures
        ({
            let (n, step) = model::advance_of(m, run, report)->0;
            step.action is Term <==> (report matches Report::Spawned(outcome) && outcome is Err)
        }),
{
}

/// No exit status leads to a second handler or to a termination: whatever the
/// status and the running time, the completion is recorded next.
pub proof fn lemma_status_decides_nothing(
    m: DispatcherModel,
    run: int,
    exit: Exit,
    elapsed: u128,
    other_exit: Exit,
    other_elapsed: u128,
)
    ensures
        ({
            let (n, step) = model::exited_to(m, run, exit, elapsed);
            let (n2, step2) = model::exited_to(m, run, other_exit, other_elapsed);
            &&& n == n2
            &&& step.action is Mark && step2.action is Mark
            &&& step.woken == step2.woken
        }),
{
}

/// A delivery is acknowledged only after its completion was recorded, now or
/// at an earlier delivery.
pub proof fn lemma_recorded_before_acked(m: DispatcherModel, run: int, report: Report)
    requires
        model::advance_of(m, run, report) is Some,
    ensures
        ({
            let (n, step) = model::advance_of(m, run, report)->0;
            step.action is Ack ==> (report is Marked && model::stage_of(m, run) == Some(
                Stage::Marking,
            )) || (report matches Report::Found(found) && found == Ok::<bool, AgentdError>(true))
        }),
{
}

/// A lookup that fails dispatches as if the event were new.
pub proof fn lemma_lookup_fails_open(m: DispatcherModel, run: int, e: AgentdError)
    ensures
        ({
            let (n, step) = model::found_to(m, run, Err(e));
            let (n2, step2) = model::found_to(m, run, Ok(false));
            &&& n == n2
            &&& step.action == step2.action
            &&& step.woken == step2.woken
        }),
{
}

/// A record that fails is acknowledged as if it had been made.
pub proof fn lemma_record_fails_open(m: DispatcherModel, run: int, e: AgentdError)
    ensures
        ({
            let (n, step) = model::marked_to(m, run, Err(e));
            let (n2, step2) = model::marked_to(m, run, Ok(()));
            &&& n == n2
            &&& step.action is Ack && step2.action is Ack
            &&& step.woken == step2.woken
        }),
{
}

/// How many handlers are active at a gate.
pub open spec fn active_at(runs: Seq<Option<RunModel>>, gate: int) -> int
    decreases runs.len(),
{
    if runs.len() == 0 {
        0
    } else {
        active_at(runs.drop_last(), gate) + if model::active(runs.last()) && runs.last()->0.gate
            == gate {
            1int
        } else {
            0
        }
    }
}

proof fn lemma_active_at_most_held(runs: Seq<Option<RunModel>>, gate: int)
    ensures
        active_at(runs, gate) <= model::held(runs, gate),
    decreases runs.len(),
{
    if runs.len() > 0 {
        lemma_active_at_most_held(runs.drop_last(), gate);
    }
}

/// Never are more handlers active at a gate than it has slots.
pub proof fn lemma_concurrency_limit(m: DispatcherModel, gate: int)
    requires
        model::coherent(m),
        0 <= gate < m.gates.len(),
    ensures
        active_at(m.runs, gate) <= m.gates[gate],
{
    lemma_active_at_most_held(m.runs, gate);
    assert(model::held(m.runs, gate) <= m.gates[gate]);
}

/// An agent's gate has as many slots as the agent is configured for when the
/// gate is made, and all of them are free.
pub proof fn lemma_configured_slots(
    m: DispatcherModel,
    agents: Map<Seq<char>, AgentConfigModel>,
    agent: Seq<char>,
)
    requires
        model::coherent(m),
        agents.dom().contains(agent),
        agents[agent].enabled,
        registry::config_fault(agents[agent]) is None,
        !m.gate_of.dom().contains(agent),
    ensures
        ({
            let (n, free) = model::available_of(m, agents, agent);
            &&& n.gates[n.gate_of[agent]] == agents[agent].max_concurrency
            &&& free == agents[agent].max_concurrency
        }),
{
    let slots = agents[agent].max_concurrency as int;
    proofs::lemma_with_gate(m, agent, slots);
    let n = model::with_gate(m, agent, slots);
    let g = n.gate_of[agent];
    assert forall|i: int| 0 <= i < n.runs.len() implies !model::holds(#[trigger] n.runs[i], g) by {
        if model::run_at_gate(n.runs[i], g) {
            assert(n.gate_of.dom().contains(agent));
            proofs::lemma_fresh_gate(m, 0);
            if g < m.gates.len() {
                assert(model::gate_in_use(m, g));
            } else {
                assert(m.runs[i] is Some);
            }
        }
    }
    proofs::lemma_held_none(n.runs, g);
}

/// A delivery that is accepted while its agent has a free slot does not wait.
pub proof fn lemma_free_slot_means_no_wait(
    m: DispatcherModel,
    agents: Map<Seq<char>, AgentConfigModel>,
    d: Delivery,
    decoded: Result<EventEnvelope, String>,
)
    requires
        model::rejection(m, agents, d, decoded) is None,
        model::available_of(m, agents, d.agent@).1 > 0,
    ensures
        model::dispatch_of(m, agents, d, decoded).1 matches Ok(start)
            && start.step.action is LookUp,
{
}

/// For an agent that is not registered, or is disabled, no slot is free and no
/// delivery is accepted.
pub proof fn lemma_no_dispatch_unless_enabled(
    m: DispatcherModel,
    agents: Map<Seq<char>, AgentConfigModel>,
    d: Delivery,
    decoded: Result<EventEnvelope, String>,
)
    requires
        !agents.dom().contains(d.agent@) || !agents[d.agent@].enabled,
    ensures
        model::available_of(m, agents, d.agent@) == (m, 0int),
        model::dispatch_of(m, agents, d, decoded).0 == m,
        model::dispatch_of(m, agents, d, decoded).1 is Err,
{
}

/// A run that is not waiting for its turn can always go on: at every stage
/// there is a report that it takes, whatever the report says.
pub proof fn lemma_never_stuck(m: DispatcherModel, run: int)
    requires
        model::stage_of(m, run) is Some,
        model::stage_of(m, run) != Some(Stage::Waiting),
    ensures
        match model::stage_of(m, run)->0 {
            Stage::Waiting => false,
            Stage::Looking => forall|found: Result<bool, AgentdError>|
                (#[trigger] model::advance_of(m, run, Report::Found(found))) is Some,
            Stage::Spawning => forall|outcome: Result<u32, String>|
                (#[trigger] model::advance_of(m, run, Report::Spawned(outcome))) is Some,
            Stage::Running => forall|exit: Exit, elapsed: u128|
                (#[trigger] model::advance_of(m, run, Report::Exited { exit, elapsed })) is Some,
            Stage::Marking => forall|outcome: Result<(), AgentdError>|
                (#[trigger] model::advance_of(m, run, Report::Marked(outcome))) is Some,
            Stage::Acking => forall|outcome: Result<(), String>|
                (#[trigger] model::advance_of(m, run, Report::Acked(outcome))) is Some,
            Stage::Terming => model::advance_of(m, run, Report::Termed) is Some,
        },
{
}

/// A run that has to wait goes to the end of the queue; those before it keep
/// their places.
pub proof fn lemma_queue_last(
    m: DispatcherModel,
    agents: Map<Seq<char>, AgentConfigModel>,
    d: Delivery,
    decoded: Result<EventEnvelope, String>,
)
    requires
        model::rejection(m, agents, d, decoded) is None,
    ensures
        ({
            let (n, outcome) = model::dispatch_of(m, agents, d, decoded);
            &&& outcome is Ok
            &&& outcome->Ok_0.step.action is Queue ==> n.queue == m.queue.push(outcome->Ok_0.run)
            &&& outcome->Ok_0.step.action is LookUp ==> n.queue == m.queue
            &&& outcome->Ok_0.step.action is Queue || outcome->Ok_0.step.action is LookUp
        }),
{
}

/// The slot of a run that ends goes to the run that has waited for it longest:
/// it goes to one if one waits, and every run before that one in the queue
/// waits for another gate.
pub proof fn lemma_longest_waiting_first(m: DispatcherModel, run: int)
    requires
        model::coherent(m),
        0 <= run < m.runs.len(),
        m.runs[run] is Some,
        m.runs[run]->0.stage != Stage::Waiting,
        !model::active(m.runs[run]),
    ensures
        ({
            let gate = m.runs[run]->0.gate;
            match model::released(m, run).1 {
                Some(w) => exists|k: int|
                    0 <= k < m.queue.len() && #[trigger] m.queue[k] == w && model::waits(
                        m.runs[w],
                        gate,
                    ) && forall|l: int|
                        0 <= l < k ==> !model::waits(m.runs[#[trigger] m.queue[l]], gate),
                None => forall|i: int|
                    0 <= i < m.runs.len() ==> !model::waits(#[trigger] m.runs[i], gate),
            }
        }),
{
    let gate = m.runs[run]->0.gate;
    let n = DispatcherModel { runs: m.runs.update(run, None), ..m };
    let k = model::next_in_line(n, gate, 0);
    proofs::lemma_next_in_line(n, gate, 0);
    if k < n.queue.len() {
        assert(m.queue[k] == n.queue[k]);
        assert forall|l: int| 0 <= l < k implies !model::waits(
            m.runs[#[trigger] m.queue[l]],
            gate,
        ) by {
            assert(n.queue[l] == m.queue[l]);
            assert(m.queue[l] != run);
        }
    } else {
        assert forall|i: int| 0 <= i < m.runs.len() implies !model::waits(
            #[trigger] m.runs[i],
            gate,
        ) by {
            if model::waits(m.runs[i], gate) {
                assert(m.queue.contains(i));
                let l = choose|l: int| 0 <= l < m.queue.len() && m.queue[l] == i;
                assert(n.queue[l] == i);
                assert(!model::waits(n.runs[n.queue[l]], gate));
            }
        }
    }
}

/// While a run waits, all slots of its gate are taken.
pub proof fn lemma_no_idle_slot(m: DispatcherModel, i: int)
    requires
        model::coherent(m),
        0 <= i < m.runs.len(),
        m.runs[i] is Some,
        m.runs[i]->0.stage == Stage::Waiting,
    ensures
        model::held(m.runs, m.runs[i]->0.gate) == m.gates[m.runs[i]->0.gate],
{
}

/// Where no run is left, no event counts as being handled.
pub proof fn lemma_nothing_left_behind(m: DispatcherModel, agent: Seq<char>)
    requires
        forall|i: int| 0 <= i < m.runs.len() ==> (#[trigger] m.runs[i]) is None,
    ensures
        model::in_flight_of(m, agent) == 0,
        forall|e: Seq<char>| !#[trigger] model::is_in_flight(m, agent, e),
{
    lemma_none_handled(m.runs, agent);
}

proof fn lemma_none_handled(runs: Seq<Option<RunModel>>, agent: Seq<char>)
    requires
        forall|i: int| 0 <= i < runs.len() ==> !model::active(#[trigger] runs[i]),
    ensures
        model::handled(runs, agent) == 0,
    decreases runs.len(),
{
    if runs.len() > 0 {
        assert(!model::active(runs[runs.len() - 1]));
        assert forall|i: int| 0 <= i < runs.drop_last().len() implies !model::active(
            #[trigger] runs.drop_last()[i],
        ) by {
            assert(runs.drop_last()[i] == runs[i]);
        }
        lemma_none_handled(runs.drop_last(), agent);
    }
}

/// A handler is started as its agent is registered: by an absolute path, with
/// the original bytes of the message on its input.
pub proof fn lemma_started_as_registered(m: DispatcherModel, run: int, report: Report)
    requires
        model::coherent(m),
        model::advance_of(m, run, report) is Some,
    ensures
        ({
            let (n, step) = model::advance_of(m, run, report)->0;
            step.action matches ActionModel::Spawn(plan) ==> {
                &&& text::is_absolute(plan.program)
                &&& plan.program == m.runs[run]->0.handler
                &&& plan.working_directory == m.runs[run]->0.working_directory
                &&& plan.stdin == m.runs[run]->0.raw
            }
        }),
{
}

/// What a new run starts from: the handler that is registered for its agent
/// and the bytes of its delivery.
pub proof fn lemma_run_of_delivery(
    m: DispatcherModel,
    agents: Map<Seq<char>, AgentConfigModel>,
    d: Delivery,
    decoded: Result<EventEnvelope, String>,
)
    requires
        model::coherent(m),
        model::rejection(m, agents, d, decoded) is None,
        registry::config_fault(agents[d.agent@]) is None,
    ensures
        ({
            let (n, outcome) = model::dispatch_of(m, agents, d, decoded);
            &&& outcome matches Ok(start) && {
                let r = n.runs[start.run];
                &&& 0 <= start.run < n.runs.len()
                &&& start.run < m.runs.len() ==> m.runs[start.run] is None
                &&& r is Some
                &&& r->0.agent == d.agent@
                &&& r->0.event_id == decoded->Ok_0.event_id@
                &&& r->0.raw == d.raw@
                &&& r->0.handler == agents[d.agent@].handler
            }
        }),
{
    proofs::lemma_with_gate(m, d.agent@, agents[d.agent@].max_concurrency as int);
    let n = model::with_gate(m, d.agent@, agents[d.agent@].max_concurrency as int);
    proofs::lemma_free_number(n.runs, 0);
}

// ---------------------------------------------------------------------------
// One handler for one event
// ---------------------------------------------------------------------------

/// No event of an agent is handled twice at a time.
pub open spec fn exclusive(m: DispatcherModel) -> bool {
    forall|i: int, j: int|
        #![trigger m.runs[i], m.runs[j]]
        0 <= i < j < m.runs.len() && model::active(m.runs[i]) && model::active(m.runs[j])
            && m.runs[i]->0.agent == m.runs[j]->0.agent ==> m.runs[i]->0.event_id
            != m.runs[j]->0.event_id
}

/// Whether every run that handles an event in one state is in the other as it
/// is here, or handles the same event there.
spec fn no_new_handler(n: DispatcherModel, m: DispatcherModel) -> bool {
    forall|i: int|
        0 <= i < n.runs.len() && model::active(#[trigger] n.runs[i]) ==> i < m.runs.len()
            && model::handles(m.runs[i], n.runs[i]->0.agent, n.runs[i]->0.event_id)
}

proof fn lemma_no_new_handler(n: DispatcherModel, m: DispatcherModel)
    requires
        exclusive(m),
        no_new_handler(n, m),
    ensures
        exclusive(n),
{
    assert forall|i: int, j: int|
        #![trigger n.runs[i], n.runs[j]]
        0 <= i < j < n.runs.len() && model::active(n.runs[i]) && model::active(n.runs[j])
            && n.runs[i]->0.agent == n.runs[j]->0.agent implies n.runs[i]->0.event_id
        != n.runs[j]->0.event_id by {
        assert(model::active(m.runs[i]) && model::active(m.runs[j]));
    }
}

/// Taking a delivery up keeps events exclusive.
pub proof fn lemma_dispatch_exclusive(
    m: DispatcherModel,
    agents: Map<Seq<char>, AgentConfigModel>,
    d: Delivery,
    decoded: Result<EventEnvelope, String>,
)
    requires
        exclusive(m),
    ensures
        exclusive(model::dispatch_of(m, agents, d, decoded).0),
{
    if model::rejection(m, agents, d, decoded) is None {
        let z = model::dispatch_of(m, agents, d, decoded).0;
        let k = model::free_number(m.runs, 0);
        proofs::lemma_free_number(m.runs, 0);
        assert(!model::active(z.runs[k]));
        lemma_no_new_handler(z, m);
    }
}

/// Asking for free slots keeps events exclusive.
pub proof fn lemma_available_exclusive(
    m: DispatcherModel,
    agents: Map<Seq<char>, AgentConfigModel>,
    agent: Seq<char>,
)
    requires
        exclusive(m),
    ensures
        exclusive(model::available_of(m, agents, agent).0),
{
    lemma_no_new_handler(model::available_of(m, agents, agent).0, m);
}

proof fn lemma_started_exclusive(m: DispatcherModel, run: int)
    requires
        exclusive(m),
        0 <= run < m.runs.len(),
        m.runs[run] is Some,
        !model::is_in_flight(m, m.runs[run]->0.agent, m.runs[run]->0.event_id),
    ensures
        exclusive(model::started(m, run)),
{
    let was = m.runs[run]->0;
    let z = model::started(m, run);
    assert forall|i: int, j: int|
        #![trigger z.runs[i], z.runs[j]]
        0 <= i < j < z.runs.len() && model::active(z.runs[i]) && model::active(z.runs[j])
            && z.runs[i]->0.agent == z.runs[j]->0.agent implies z.runs[i]->0.event_id
        != z.runs[j]->0.event_id by {
        if i == run {
            assert(z.runs[j] == m.runs[j]);
            assert(!model::handles(m.runs[j], was.agent, was.event_id));
        } else if j == run {
            assert(z.runs[i] == m.runs[i]);
            assert(!model::handles(m.runs[i], was.agent, was.event_id));
        } else {
            assert(z.runs[i] == m.runs[i] && z.runs[j] == m.runs[j]);
        }
    }
}

/// Every report keeps events exclusive: never are two handlers of an agent
/// active for one event.
pub proof fn lemma_advance_exclusive(m: DispatcherModel, run: int, report: Report)
    requires
        model::coherent(m),
        exclusive(m),
        model::advance_of(m, run, report) is Some,
    ensures
        exclusive((model::advance_of(m, run, report)->0).0),
{
    let r = m.runs[run]->0;
    let n = (model::advance_of(m, run, report)->0).0;
    match report {
        Report::Found(found) => {
            if found == Ok::<bool, AgentdError>(true) {
                lemma_no_new_handler(n, m);
            } else if model::is_in_flight(m, r.agent, r.event_id) {
                proofs::lemma_released(m, run);
                lemma_no_new_handler(n, m);
            } else {
                lemma_started_exclusive(m, run);
            }
        },
        Report::Acked(_) | Report::Termed => {
            proofs::lemma_released(m, run);
            lemma_no_new_handler(n, m);
        },
        _ => {
            lemma_no_new_handler(n, m);
        },
    }
}

/// Changes of the registry keep events exclusive, whatever is being handled.
pub proof fn lemma_changes_exclusive(m: DispatcherModel, agents: Set<Seq<char>>)
    requires
        exclusive(m),
    ensures
        exclusive(model::without_gates(m, agents)),
{
    lemma_no_new_handler(model::without_gates(m, agents), m);
}

/// Changes of the registry touch no run: handlers are never interrupted,
/// waiting runs keep their places, and what is being handled stays so.
pub proof fn lemma_changes_interrupt_nothing(m: DispatcherModel, agents: Set<Seq<char>>)
    ensures
        model::without_gates(m, agents).runs == m.runs,
        model::without_gates(m, agents).queue == m.queue,
        model::without_gates(m, agents).gates == m.gates,
        forall|a: Seq<char>|
            #[trigger] model::in_flight_of(model::without_gates(m, agents), a)
                == model::in_flight_of(m, a),
{
}

/// A dispatcher without runs is coherent and exclusive.
pub proof fn lemma_empty(m: DispatcherModel)
    requires
        m.gate_of == Map::<Seq<char>, int>::empty(),
        m.gates == Seq::<int>::empty(),
        m.runs == Seq::<Option<RunModel>>::empty(),
        m.queue == Seq::<int>::empty(),
    ensures
        model::coherent(m),
        exclusive(m),
{
}

// ---------------------------------------------------------------------------
// With the store of completed events
// ---------------------------------------------------------------------------

/// A redelivery of an event whose completion was recorded is acknowledged and
/// its handler skipped, whenever the store can tell.
pub proof fn lemma_completed_event_is_skipped(
    m: DispatcherModel,
    run: int,
    before: DedupStore,
    after: DedupStore,
    found: Result<bool, AgentdError>,
)
    requires
        model::stage_of(m, run) == Some(Stage::Looking),
        before.private(),
        dedup::comparable(m.runs[run]->0.event_id),
        before.records(m.runs[run]->0.agent, m.runs[run]->0.event_id, Ok(()), &after),
        after.answers(m.runs[run]->0.agent, m.runs[run]->0.event_id, found),
        found is Ok,
    ensures
        model::found_to(m, run, found).1.action is Ack,
{
}

} // verus!
