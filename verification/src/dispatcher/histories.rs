//! Laws over whole histories of the dispatcher: what holds after any number of
//! operations, in any order.

use vstd::prelude::*;

use crate::dispatcher::laws;
use crate::dispatcher::model;
use crate::dispatcher::model::{
    ActionModel, Delivery, DispatcherModel, Report, RunModel, Stage,
};
use crate::dispatcher::proofs;
use crate::error::AgentdError;
use crate::event::EventEnvelope;
use crate::registry;
use crate::registry::AgentConfigModel;

verus! {

/// One operation on the dispatcher.
pub enum Operation {
    /// A delivery is taken up.
    Dispatch {
        agents: Map<Seq<char>, AgentConfigModel>,
        delivery: Delivery,
        decoded: Result<EventEnvelope, String>,
    },
    /// The free slots of an agent are asked for.
    Available { agents: Map<Seq<char>, AgentConfigModel>, agent: Seq<char> },
    /// A report on a run comes in.
    Advance { run: int, report: Report },
    /// Agents change in the registry.
    Changes { agents: Set<Seq<char>> },
}

/// What an operation makes of the dispatcher.
pub open spec fn moved(m: DispatcherModel, op: Operation) -> DispatcherModel {
    match op {
        Operation::Dispatch { agents, delivery, decoded } => model::dispatch_of(
            m,
            agents,
            delivery,
            decoded,
        ).0,
        Operation::Available { agents, agent } => model::available_of(m, agents, agent).0,
        Operation::Advance { run, report } => match model::advance_of(m, run, report) {
            Some((n, _)) => n,
            None => m,
        },
        Operation::Changes { agents } => model::without_gates(m, agents),
    }
}

/// What a list of operations makes of the dispatcher.
pub open spec fn after(m: DispatcherModel, ops: Seq<Operation>) -> DispatcherModel
    decreases ops.len(),
{
    if ops.len() == 0 {
        m
    } else {
        after(moved(m, ops[0]), ops.drop_first())
    }
}

/// Whether every registration that an operation goes by is a valid one, as all
/// those of a registry are.
pub open spec fn by_valid_agents(op: Operation) -> bool {
    match op {
        Operation::Dispatch { agents, .. } => all_valid(agents),
        Operation::Available { agents, .. } => all_valid(agents),
        _ => true,
    }
}

/// Whether all registrations are valid.
pub open spec fn all_valid(agents: Map<Seq<char>, AgentConfigModel>) -> bool {
    forall|a: Seq<char>| #[trigger]
        agents.dom().contains(a) ==> registry::config_fault(agents[a]) is None
}

/// Whether all operations of a list go by valid registrations.
pub open spec fn all_by_valid_agents(ops: Seq<Operation>) -> bool {
    forall|k: int| 0 <= k < ops.len() ==> by_valid_agents(#[trigger] ops[k])
}

proof fn lemma_rest_by_valid_agents(ops: Seq<Operation>)
    requires
        all_by_valid_agents(ops),
        ops.len() > 0,
    ensures
        by_valid_agents(ops[0]),
        all_by_valid_agents(ops.drop_first()),
{
    assert forall|k: int| 0 <= k < ops.drop_first().len() implies by_valid_agents(
        #[trigger] ops.drop_first()[k],
    ) by {
        assert(ops.drop_first()[k] == ops[k + 1]);
    }
}

proof fn lemma_moved(m: DispatcherModel, op: Operation)
    requires
        model::coherent(m),
        laws::exclusive(m),
        by_valid_agents(op),
    ensures
        model::coherent(moved(m, op)),
        laws::exclusive(moved(m, op)),
{
    match op {
        Operation::Dispatch { agents, delivery, decoded } => {
            laws::lemma_dispatch_exclusive(m, agents, delivery, decoded);
            if model::rejection(m, agents, delivery, decoded) is None {
                proofs::lemma_joined(m, delivery, decoded->Ok_0, agents[delivery.agent@]);
            }
        },
        Operation::Available { agents, agent } => {
            laws::lemma_available_exclusive(m, agents, agent);
            if agents.dom().contains(agent) && agents[agent].enabled {
                proofs::lemma_with_gate(m, agent, agents[agent].max_concurrency as int);
            }
        },
        Operation::Advance { run, report } => {
            if model::advance_of(m, run, report) is Some {
                proofs::lemma_advance(m, run, report);
                laws::lemma_advance_exclusive(m, run, report);
            }
        },
        Operation::Changes { agents } => {
            proofs::lemma_without_gates(m, agents);
            laws::lemma_changes_exclusive(m, agents);
        },
    }
}

/// Whatever happens, the dispatcher stays coherent and no event of an agent is
/// ever handled twice at a time.
pub proof fn lemma_always_exclusive(m: DispatcherModel, ops: Seq<Operation>)
    requires
        model::coherent(m),
        laws::exclusive(m),
        all_by_valid_agents(ops),
    ensures
        model::coherent(after(m, ops)),
        laws::exclusive(after(m, ops)),
    decreases ops.len(),
{
    if ops.len() > 0 {
        lemma_rest_by_valid_agents(ops);
        lemma_moved(m, ops[0]);
        lemma_always_exclusive(moved(m, ops[0]), ops.drop_first());
    }
}

// ---------------------------------------------------------------------------
// One run from its beginning to its end
// ---------------------------------------------------------------------------

/// What the caller is told to do, without the particulars.
pub enum Kind {
    Queue,
    LookUp,
    Spawn,
    Supervise,
    Mark,
    Ack,
    Term,
    Finish,
}

/// The kind of an action.
pub open spec fn kind_of(action: ActionModel) -> Kind {
    match action {
        ActionModel::Queue => Kind::Queue,
        ActionModel::LookUp => Kind::LookUp,
        ActionModel::Spawn(_) => Kind::Spawn,
        ActionModel::Supervise(_) => Kind::Supervise,
        ActionModel::Mark => Kind::Mark,
        ActionModel::Ack => Kind::Ack,
        ActionModel::Term => Kind::Term,
        ActionModel::Finish => Kind::Finish,
    }
}

/// What an operation tells the caller to do for a run: a report on the run
/// leads to its next action, and a run that is woken looks its event up.
pub open spec fn told_by(m: DispatcherModel, op: Operation, run: int) -> Seq<Kind> {
    match op {
        Operation::Advance { run: reported, report } => match model::advance_of(m, reported, report) {
            Some((_, step)) => if reported == run {
                seq![kind_of(step.action)]
            } else if step.woken == Some(run) {
                seq![Kind::LookUp]
            } else {
                seq![]
            },
            None => seq![],
        },
        _ => seq![],
    }
}

/// All that the caller is told to do for a run, until the run is over.
pub open spec fn told(m: DispatcherModel, ops: Seq<Operation>, run: int) -> Seq<Kind>
    decreases ops.len(),
{
    if ops.len() == 0 || model::stage_of(m, run) is None {
        seq![]
    } else {
        told_by(m, ops[0], run) + told(moved(m, ops[0]), ops.drop_first(), run)
    }
}

/// The stage that operations bring a run to; nothing once the run is over.
pub open spec fn brought_to(m: DispatcherModel, ops: Seq<Operation>, run: int) -> Option<Stage>
    decreases ops.len(),
{
    if ops.len() == 0 || model::stage_of(m, run) is None {
        model::stage_of(m, run)
    } else {
        brought_to(moved(m, ops[0]), ops.drop_first(), run)
    }
}

/// A run's turn, for which it queued or not, and what follows.
pub open spec fn path(queued: bool, rest: Seq<Kind>) -> Seq<Kind> {
    (if queued {
        seq![Kind::Queue, Kind::LookUp]
    } else {
        seq![Kind::LookUp]
    }) + rest
}

/// A copy of an event that is being handled: it is dropped.
pub open spec fn dropped(queued: bool) -> Seq<Kind> {
    path(queued, seq![Kind::Finish])
}

/// An event that completed before: it is acknowledged.
pub open spec fn skipped(queued: bool) -> Seq<Kind> {
    path(queued, seq![Kind::Ack, Kind::Finish])
}

/// A handler that does not start: the delivery is terminated.
pub open spec fn failed(queued: bool) -> Seq<Kind> {
    path(queued, seq![Kind::Spawn, Kind::Term, Kind::Finish])
}

/// A handler that runs: once it ended its event is recorded, and then the
/// delivery is acknowledged.
pub open spec fn completed(queued: bool) -> Seq<Kind> {
    path(queued, seq![Kind::Spawn, Kind::Supervise, Kind::Mark, Kind::Ack, Kind::Finish])
}

/// What was done for a run that is at a stage, or is over.
pub open spec fn course(stage: Option<Stage>, queued: bool, t: Seq<Kind>) -> bool {
    match stage {
        Some(Stage::Waiting) => queued && t == seq![Kind::Queue],
        Some(Stage::Looking) => t == path(queued, seq![]),
        Some(Stage::Spawning) => t == path(queued, seq![Kind::Spawn]),
        Some(Stage::Running) => t == path(queued, seq![Kind::Spawn, Kind::Supervise]),
        Some(Stage::Marking) => t == path(queued, seq![Kind::Spawn, Kind::Supervise, Kind::Mark]),
        Some(Stage::Acking) => {
            ||| t == path(queued, seq![Kind::Ack])
            ||| t == path(queued, seq![Kind::Spawn, Kind::Supervise, Kind::Mark, Kind::Ack])
        },
        Some(Stage::Terming) => t == path(queued, seq![Kind::Spawn, Kind::Term]),
        None => {
            ||| t == dropped(queued)
            ||| t == skipped(queued)
            ||| t == failed(queued)
            ||| t == completed(queued)
        },
    }
}

/// What an operation does to a run that is not over: it goes one step along
/// its course or stays where it is, and is of the same agent and event.
proof fn lemma_course_step(
    m: DispatcherModel,
    op: Operation,
    run: int,
    queued: bool,
    t: Seq<Kind>,
)
    requires
        model::coherent(m),
        model::stage_of(m, run) is Some,
        course(model::stage_of(m, run), queued, t),
    ensures
        course(model::stage_of(moved(m, op), run), queued, t + told_by(m, op, run)),
        model::stage_of(moved(m, op), run) is Some ==> {
            &&& moved(m, op).runs[run]->0.agent == m.runs[run]->0.agent
            &&& moved(m, op).runs[run]->0.event_id == m.runs[run]->0.event_id
        },
{
    let n = moved(m, op);
    let more = told_by(m, op, run);
    match op {
        Operation::Advance { run: reported, report } => {
            if model::advance_of(m, reported, report) is Some {
                let step = (model::advance_of(m, reported, report)->0).1;
                if m.runs[reported]->0.stage != Stage::Spawning && !model::active(m.runs[reported])
                {
                    proofs::lemma_released(m, reported);
                }
                if reported == run {
                    lemma_course_report(m, run, report, queued, t);
                } else if step.woken == Some(run) {
                    laws::lemma_others_unchanged(m, reported, report, run);
                    assert(t + more =~= path(queued, seq![]));
                } else {
                    laws::lemma_others_unchanged(m, reported, report, run);
                    assert(t + more =~= t);
                }
            } else {
                assert(t + more =~= t);
            }
        },
        Operation::Dispatch { agents, delivery, decoded } => {
            proofs::lemma_free_number(m.runs, 0);
            assert(t + more =~= t);
            if model::rejection(m, agents, delivery, decoded) is None {
                assert(n.runs[run] == m.runs[run]);
            }
        },
        _ => {
            assert(t + more =~= t);
        },
    }
}

proof fn lemma_course_report(
    m: DispatcherModel,
    run: int,
    report: Report,
    queued: bool,
    t: Seq<Kind>,
)
    requires
        model::coherent(m),
        model::advance_of(m, run, report) is Some,
        course(model::stage_of(m, run), queued, t),
    ensures
        ({
            let (n, step) = model::advance_of(m, run, report)->0;
            &&& course(model::stage_of(n, run), queued, t + seq![kind_of(step.action)])
            &&& model::stage_of(n, run) is Some ==> n.runs[run]->0.agent == m.runs[run]->0.agent
                && n.runs[run]->0.event_id == m.runs[run]->0.event_id
        }),
{
    let (n, step) = model::advance_of(m, run, report)->0;
    let u = t + seq![kind_of(step.action)];
    if m.runs[run]->0.stage != Stage::Spawning && !model::active(m.runs[run]) {
        proofs::lemma_released(m, run);
    }
    match report {
        Report::Found(found) => {
            if found == Ok::<bool, AgentdError>(true) {
                assert(u =~= path(queued, seq![Kind::Ack]));
            } else if step.action is Finish {
                assert(u =~= dropped(queued));
            } else {
                assert(u =~= path(queued, seq![Kind::Spawn]));
            }
        },
        Report::Spawned(outcome) => match outcome {
            Ok(_) => {
                assert(u =~= path(queued, seq![Kind::Spawn, Kind::Supervise]));
            },
            Err(_) => {
                assert(u =~= path(queued, seq![Kind::Spawn, Kind::Term]));
            },
        },
        Report::Exited { .. } => {
            assert(u =~= path(queued, seq![Kind::Spawn, Kind::Supervise, Kind::Mark]));
        },
        Report::Marked(_) => {
            assert(u =~= path(queued, seq![Kind::Spawn, Kind::Supervise, Kind::Mark, Kind::Ack]));
        },
        Report::Acked(_) => {
            if t == path(queued, seq![Kind::Ack]) {
                assert(u =~= skipped(queued));
            } else {
                assert(u =~= completed(queued));
            }
        },
        Report::Termed => {
            assert(u =~= failed(queued));
        },
    }
}

proof fn lemma_course(
    m: DispatcherModel,
    ops: Seq<Operation>,
    run: int,
    queued: bool,
    t: Seq<Kind>,
)
    requires
        model::coherent(m),
        laws::exclusive(m),
        all_by_valid_agents(ops),
        course(model::stage_of(m, run), queued, t),
    ensures
        course(brought_to(m, ops, run), queued, t + told(m, ops, run)),
    decreases ops.len(),
{
    if ops.len() == 0 || model::stage_of(m, run) is None {
        assert(t + told(m, ops, run) =~= t);
    } else {
        let n = moved(m, ops[0]);
        let more = told_by(m, ops[0], run);
        lemma_rest_by_valid_agents(ops);
        lemma_moved(m, ops[0]);
        lemma_course_step(m, ops[0], run, queued, t);
        lemma_course(n, ops.drop_first(), run, queued, t + more);
        assert(t + told(m, ops, run) =~= t + more + told(n, ops.drop_first(), run));
    }
}

/// The course of a delivery that is accepted, whatever else the dispatcher does
/// meanwhile. It is one of four: its event is being handled, and it is dropped
/// without an answer; its event completed before, and it is acknowledged; its
/// handler does not start, and it is terminated; or its handler runs to its
/// end, its event is recorded, and then it is acknowledged. Until it is over it
/// has gone a part of one of them.
pub proof fn lemma_whole_run(
    m: DispatcherModel,
    agents: Map<Seq<char>, AgentConfigModel>,
    d: Delivery,
    decoded: Result<EventEnvelope, String>,
    ops: Seq<Operation>,
)
    requires
        model::coherent(m),
        laws::exclusive(m),
        all_valid(agents),
        all_by_valid_agents(ops),
        model::rejection(m, agents, d, decoded) is None,
    ensures
        ({
            let (n, outcome) = model::dispatch_of(m, agents, d, decoded);
            let start = outcome->Ok_0;
            course(
                brought_to(n, ops, start.run),
                start.step.action is Queue,
                seq![kind_of(start.step.action)] + told(n, ops, start.run),
            )
        }),
{
    let (n, outcome) = model::dispatch_of(m, agents, d, decoded);
    let start = outcome->Ok_0;
    let queued = start.step.action is Queue;
    let first = seq![kind_of(start.step.action)];
    lemma_moved(m, Operation::Dispatch { agents, delivery: d, decoded });
    laws::lemma_run_of_delivery(m, agents, d, decoded);
    assert(!queued ==> first =~= path(queued, seq![]));
    assert(course(model::stage_of(n, start.run), queued, first));
    lemma_course(n, ops, start.run, queued, first);
}

/// How often something is done.
pub open spec fn times(t: Seq<Kind>, kind: Kind) -> nat
    decreases t.len(),
{
    if t.len() == 0 {
        0
    } else {
        times(t.drop_first(), kind) + if t[0] == kind {
            1nat
        } else {
            0
        }
    }
}

/// A run that is over was answered once, by an acknowledgement or a
/// termination, except that a dropped copy was not answered. At most one
/// handler was started, and the event was recorded, once, exactly where the
/// handler ran.
pub proof fn lemma_one_answer_in_all(queued: bool, t: Seq<Kind>)
    requires
        course(None, queued, t),
    ensures
        times(t, Kind::Ack) + times(t, Kind::Term) == if t == dropped(queued) {
            0nat
        } else {
            1
        },
        times(t, Kind::Spawn) <= 1,
        times(t, Kind::Mark) == times(t, Kind::Supervise),
        times(t, Kind::Supervise) <= times(t, Kind::Spawn),
        times(t, Kind::Term) == times(t, Kind::Spawn) - times(t, Kind::Supervise),
{
    reveal_with_fuel(times, 9);
    let u = if queued {
        t.drop_first()
    } else {
        t
    };
    let v = u.drop_first();
    if t == dropped(queued) {
        assert(v =~= seq![Kind::Finish]);
    } else if t == skipped(queued) {
        assert(v =~= seq![Kind::Ack, Kind::Finish]);
        assert(v.drop_first() =~= seq![Kind::Finish]);
    } else if t == failed(queued) {
        assert(v =~= seq![Kind::Spawn, Kind::Term, Kind::Finish]);
        assert(v.drop_first() =~= seq![Kind::Term, Kind::Finish]);
        assert(v.drop_first().drop_first() =~= seq![Kind::Finish]);
    } else {
        assert(v =~= seq![Kind::Spawn, Kind::Supervise, Kind::Mark, Kind::Ack, Kind::Finish]);
        let w = v.drop_first();
        assert(w =~= seq![Kind::Supervise, Kind::Mark, Kind::Ack, Kind::Finish]);
        assert(w.drop_first() =~= seq![Kind::Mark, Kind::Ack, Kind::Finish]);
        assert(w.drop_first().drop_first() =~= seq![Kind::Ack, Kind::Finish]);
        assert(w.drop_first().drop_first().drop_first() =~= seq![Kind::Finish]);
        assert(t != dropped(queued)) by {
            assert(t.len() != dropped(queued).len());
        }
    }
}

/// As long as a run is not over it is of the agent and the event that it began
/// with.
pub proof fn lemma_same_event(m: DispatcherModel, ops: Seq<Operation>, run: int)
    requires
        model::coherent(m),
        laws::exclusive(m),
        all_by_valid_agents(ops),
        brought_to(m, ops, run) is Some,
    ensures
        ({
            let n = after(m, ops);
            &&& model::stage_of(n, run) == brought_to(m, ops, run)
            &&& n.runs[run]->0.agent == m.runs[run]->0.agent
            &&& n.runs[run]->0.event_id == m.runs[run]->0.event_id
        }),
    decreases ops.len(),
{
    if ops.len() > 0 {
        let n = moved(m, ops[0]);
        lemma_rest_by_valid_agents(ops);
        lemma_moved(m, ops[0]);
        lemma_keeps_event(m, ops[0], run);
        reveal_with_fuel(brought_to, 2);
        lemma_same_event(n, ops.drop_first(), run);
    }
}

proof fn lemma_keeps_event(m: DispatcherModel, op: Operation, run: int)
    requires
        model::coherent(m),
        model::stage_of(m, run) is Some,
    ensures
        model::stage_of(moved(m, op), run) is Some ==> {
            &&& moved(m, op).runs[run]->0.agent == m.runs[run]->0.agent
            &&& moved(m, op).runs[run]->0.event_id == m.runs[run]->0.event_id
            &&& moved(m, op).runs[run]->0.gate == m.runs[run]->0.gate
        },
{
    match op {
        Operation::Advance { run: reported, report } => {
            if model::advance_of(m, reported, report) is Some {
                if m.runs[reported]->0.stage != Stage::Spawning && !model::active(m.runs[reported])
                {
                    proofs::lemma_released(m, reported);
                }
                if reported != run {
                    laws::lemma_others_unchanged(m, reported, report, run);
                }
            }
        },
        Operation::Dispatch { agents, delivery, decoded } => {
            proofs::lemma_free_number(m.runs, 0);
        },
        _ => {},
    }
}

// ---------------------------------------------------------------------------
// Two copies of one event
// ---------------------------------------------------------------------------

/// Whether a run handles its event all the time.
pub open spec fn handling_throughout(m: DispatcherModel, ops: Seq<Operation>, run: int) -> bool
    decreases ops.len(),
{
    &&& 0 <= run < m.runs.len()
    &&& model::active(m.runs[run])
    &&& ops.len() > 0 ==> handling_throughout(moved(m, ops[0]), ops.drop_first(), run)
}

/// Whether no lookup for a run says that its event completed before.
pub open spec fn never_found(ops: Seq<Operation>, run: int) -> bool {
    forall|k: int|
        0 <= k < ops.len() ==> !((#[trigger] ops[k]) matches Operation::Advance {
            run: reported,
            report,
        } && reported == run && (report matches Report::Found(found) && found == Ok::<
            bool,
            AgentdError,
        >(true)))
}

/// While a copy of an event is being handled, another copy of it is at most
/// looked up and dropped: it starts no handler, records nothing and is not
/// answered, unless the store says that the event completed before. Changes of
/// the registry in between make no difference.
pub proof fn lemma_second_copy_is_dropped(
    m: DispatcherModel,
    ops: Seq<Operation>,
    first: int,
    second: int,
)
    requires
        model::coherent(m),
        laws::exclusive(m),
        all_by_valid_agents(ops),
        handling_throughout(m, ops, first),
        first != second,
        model::stage_of(m, second) == Some(Stage::Waiting) || model::stage_of(m, second) == Some(
            Stage::Looking,
        ),
        m.runs[second]->0.agent == m.runs[first]->0.agent,
        m.runs[second]->0.event_id == m.runs[first]->0.event_id,
        never_found(ops, second),
    ensures
        forall|k: int|
            0 <= k < told(m, ops, second).len() ==> (#[trigger] told(m, ops, second)[k])
                == Kind::LookUp || told(m, ops, second)[k] == Kind::Finish,
        brought_to(m, ops, second) is None || brought_to(m, ops, second) == Some(Stage::Waiting)
            || brought_to(m, ops, second) == Some(Stage::Looking),
    decreases ops.len(),
{
    if ops.len() > 0 {
        let n = moved(m, ops[0]);
        reveal_with_fuel(told, 2);
        reveal_with_fuel(brought_to, 2);
        reveal_with_fuel(handling_throughout, 2);
        lemma_rest_by_valid_agents(ops);
        lemma_moved(m, ops[0]);
        lemma_keeps_event(m, ops[0], second);
        lemma_keeps_event(m, ops[0], first);
        lemma_second_copy_step(m, ops[0], first, second);
        assert(never_found(ops.drop_first(), second)) by {
            assert forall|k: int| 0 <= k < ops.drop_first().len() implies !((
            #[trigger] ops.drop_first()[k]) matches Operation::Advance {
                run: reported,
                report,
            } && reported == second && (report matches Report::Found(found) && found == Ok::<
                bool,
                AgentdError,
            >(true))) by {
                assert(ops.drop_first()[k] == ops[k + 1]);
            }
        }
        if model::stage_of(n, second) is Some {
            lemma_second_copy_is_dropped(n, ops.drop_first(), first, second);
        }
    }
}

proof fn lemma_second_copy_step(m: DispatcherModel, op: Operation, first: int, second: int)
    requires
        model::coherent(m),
        0 <= first < m.runs.len(),
        model::active(m.runs[first]),
        first != second,
        model::stage_of(m, second) == Some(Stage::Waiting) || model::stage_of(m, second) == Some(
            Stage::Looking,
        ),
        m.runs[second]->0.agent == m.runs[first]->0.agent,
        m.runs[second]->0.event_id == m.runs[first]->0.event_id,
        !(op matches Operation::Advance { run: reported, report } && reported == second && (
        report matches Report::Found(found) && found == Ok::<bool, AgentdError>(true))),
    ensures
        ({
            let stage = model::stage_of(moved(m, op), second);
            stage is None || stage == Some(Stage::Waiting) || stage == Some(Stage::Looking)
        }),
        forall|k: int|
            0 <= k < told_by(m, op, second).len() ==> (#[trigger] told_by(m, op, second)[k])
                == Kind::LookUp || told_by(m, op, second)[k] == Kind::Finish,
{
    match op {
        Operation::Advance { run: reported, report } => {
            if model::advance_of(m, reported, report) is Some {
                if m.runs[reported]->0.stage != Stage::Spawning && !model::active(m.runs[reported])
                {
                    proofs::lemma_released(m, reported);
                }
                if reported == second {
                    let r = m.runs[second]->0;
                    assert(model::handles(m.runs[first], r.agent, r.event_id));
                    assert(model::is_in_flight(m, r.agent, r.event_id));
                } else {
                    laws::lemma_others_unchanged(m, reported, report, second);
                }
            }
        },
        Operation::Dispatch { agents, delivery, decoded } => {
            proofs::lemma_free_number(m.runs, 0);
        },
        _ => {},
    }
}

// ---------------------------------------------------------------------------
// How many handlers an agent has
// ---------------------------------------------------------------------------

/// Whether an operation leaves an agent as it is registered: with so many
/// slots wherever it is registered, and without a change.
pub open spec fn leaves_agent(op: Operation, agent: Seq<char>, slots: int) -> bool {
    match op {
        Operation::Dispatch { agents, .. } => agents.dom().contains(agent)
            ==> agents[agent].max_concurrency == slots,
        Operation::Available { agents, .. } => agents.dom().contains(agent)
            ==> agents[agent].max_concurrency == slots,
        Operation::Advance { .. } => true,
        Operation::Changes { agents } => !agents.contains(agent),
    }
}

/// Whether all runs of an agent are at its gate, which has so many slots.
pub open spec fn at_one_gate(m: DispatcherModel, agent: Seq<char>, slots: int) -> bool {
    if m.gate_of.dom().contains(agent) {
        &&& m.gates[m.gate_of[agent]] == slots
        &&& forall|i: int|
            0 <= i < m.runs.len() && (#[trigger] m.runs[i]) is Some && m.runs[i]->0.agent == agent
                ==> m.runs[i]->0.gate == m.gate_of[agent]
    } else {
        forall|i: int|
            0 <= i < m.runs.len() && (#[trigger] m.runs[i]) is Some ==> m.runs[i]->0.agent != agent
    }
}

proof fn lemma_with_gate_at_one_gate(
    m: DispatcherModel,
    other: Seq<char>,
    other_slots: int,
    agent: Seq<char>,
    slots: int,
)
    requires
        model::coherent(m),
        at_one_gate(m, agent, slots),
        other == agent ==> other_slots == slots,
        other_slots > 0,
    ensures
        at_one_gate(model::with_gate(m, other, other_slots), agent, slots),
{
    proofs::lemma_with_gate(m, other, other_slots);
    if !m.gate_of.dom().contains(other) {
        proofs::lemma_fresh_gate(m, 0);
        if m.gate_of.dom().contains(agent) {
            assert(model::gate_in_use(m, m.gate_of[agent]));
        }
    }
}

proof fn lemma_at_one_gate(m: DispatcherModel, op: Operation, agent: Seq<char>, slots: int)
    requires
        model::coherent(m),
        at_one_gate(m, agent, slots),
        by_valid_agents(op),
        leaves_agent(op, agent, slots),
    ensures
        at_one_gate(moved(m, op), agent, slots),
{
    match op {
        Operation::Dispatch { agents, delivery, decoded } => {
            if model::rejection(m, agents, delivery, decoded) is None {
                let of = delivery.agent@;
                let n = model::with_gate(m, of, agents[of].max_concurrency as int);
                lemma_with_gate_at_one_gate(
                    m,
                    of,
                    agents[of].max_concurrency as int,
                    agent,
                    slots,
                );
                proofs::lemma_with_gate(m, of, agents[of].max_concurrency as int);
                let z = moved(m, op);
                let k = model::free_number(n.runs, 0);
                proofs::lemma_free_number(n.runs, 0);
                assert forall|i: int| 0 <= i < z.runs.len() && i != k implies #[trigger] z.runs[i]
                    == n.runs[i] by {}
                assert(z.runs[k]->0.agent == of && z.runs[k]->0.gate == n.gate_of[of]);
                assert(z.gate_of == n.gate_of && z.gates == n.gates);
                assert forall|i: int|
                    0 <= i < z.runs.len() && (#[trigger] z.runs[i]) is Some && z.runs[i]->0.agent
                        == agent implies n.gate_of.dom().contains(agent) && z.runs[i]->0.gate
                    == n.gate_of[agent] by {
                    if i != k {
                        assert(n.runs[i] is Some);
                    }
                }
            }
        },
        Operation::Available { agents, agent: other } => {
            if agents.dom().contains(other) && agents[other].enabled {
                lemma_with_gate_at_one_gate(
                    m,
                    other,
                    agents[other].max_concurrency as int,
                    agent,
                    slots,
                );
            }
        },
        Operation::Advance { run, report } => {
            let n = moved(m, op);
            if model::advance_of(m, run, report) is Some && m.runs[run]->0.stage
                != Stage::Spawning && !model::active(m.runs[run]) {
                proofs::lemma_released(m, run);
            }
            assert(n.runs.len() == m.runs.len());
            assert forall|i: int| 0 <= i < n.runs.len() && (#[trigger] n.runs[i]) is Some implies (
            m.runs[i] is Some && n.runs[i]->0.agent == m.runs[i]->0.agent && n.runs[i]->0.gate
                == m.runs[i]->0.gate) by {
                if model::advance_of(m, run, report) is Some && i != run {
                    laws::lemma_others_unchanged(m, run, report, i);
                }
            }
        },
        Operation::Changes { agents } => {},
    }
}

proof fn lemma_handled_at_gate(runs: Seq<Option<RunModel>>, agent: Seq<char>, gate: int)
    requires
        forall|i: int|
            0 <= i < runs.len() && (#[trigger] runs[i]) is Some && runs[i]->0.agent == agent
                ==> runs[i]->0.gate == gate,
    ensures
        model::handled(runs, agent) <= model::held(runs, gate),
    decreases runs.len(),
{
    if runs.len() > 0 {
        let front = runs.drop_last();
        assert forall|i: int|
            0 <= i < front.len() && (#[trigger] front[i]) is Some && front[i]->0.agent
                == agent implies front[i]->0.gate == gate by {
            assert(front[i] == runs[i]);
        }
        lemma_handled_at_gate(front, agent, gate);
        assert(runs[runs.len() - 1] == runs.last());
    }
}

/// An agent that stays as it is registered never has more handlers at a time
/// than it is registered for; an agent with one slot never has two.
pub proof fn lemma_limit_of_agent(
    m: DispatcherModel,
    ops: Seq<Operation>,
    agent: Seq<char>,
    slots: int,
)
    requires
        model::coherent(m),
        laws::exclusive(m),
        slots >= 0,
        at_one_gate(m, agent, slots),
        all_by_valid_agents(ops),
        forall|k: int| 0 <= k < ops.len() ==> leaves_agent(#[trigger] ops[k], agent, slots),
    ensures
        model::in_flight_of(after(m, ops), agent) <= slots,
        at_one_gate(after(m, ops), agent, slots),
    decreases ops.len(),
{
    if ops.len() == 0 {
        if m.gate_of.dom().contains(agent) {
            lemma_handled_at_gate(m.runs, agent, m.gate_of[agent]);
            assert(model::held(m.runs, m.gate_of[agent]) <= m.gates[m.gate_of[agent]]);
        } else {
            lemma_handled_at_gate(m.runs, agent, -1);
            assert forall|i: int| 0 <= i < m.runs.len() implies !model::holds(
                #[trigger] m.runs[i],
                -1,
            ) by {}
            proofs::lemma_held_none(m.runs, -1);
        }
    } else {
        lemma_rest_by_valid_agents(ops);
        lemma_moved(m, ops[0]);
        lemma_at_one_gate(m, ops[0], agent, slots);
        assert forall|k: int| 0 <= k < ops.drop_first().len() implies leaves_agent(
            #[trigger] ops.drop_first()[k],
            agent,
            slots,
        ) by {
            assert(ops.drop_first()[k] == ops[k + 1]);
        }
        lemma_limit_of_agent(moved(m, ops[0]), ops.drop_first(), agent, slots);
    }
}

/// A delivery of such an agent waits only where all its slots are taken.
pub proof fn lemma_waits_only_for_slots(
    m: DispatcherModel,
    agents: Map<Seq<char>, AgentConfigModel>,
    d: Delivery,
    decoded: Result<EventEnvelope, String>,
)
    requires
        model::coherent(m),
        all_valid(agents),
        model::rejection(m, agents, d, decoded) is None,
        at_one_gate(m, d.agent@, agents[d.agent@].max_concurrency as int),
    ensures
        ({
            let (n, outcome) = model::dispatch_of(m, agents, d, decoded);
            outcome matches Ok(start) && (start.step.action is Queue <==> runs_under_way(
                m.runs,
                d.agent@,
            ) >= agents[d.agent@].max_concurrency)
        }),
{
    let agent = d.agent@;
    let slots = agents[agent].max_concurrency as int;
    let n = model::with_gate(m, agent, slots);
    proofs::lemma_with_gate(m, agent, slots);
    lemma_with_gate_at_one_gate(m, agent, slots, agent, slots);
    let g = n.gate_of[agent];
    assert forall|i: int| 0 <= i < n.runs.len() && (#[trigger] n.runs[i]) is Some implies (
    n.runs[i]->0.gate == g <==> n.runs[i]->0.agent == agent) by {
        assert(n.gate_of.dom().contains(agent));
        if n.runs[i]->0.gate == g {
            assert(model::run_at_gate(n.runs[i], n.gate_of[agent]));
        }
    }
    lemma_under_way_at_gate(n.runs, agent, g);
}

/// The runs of an agent that stays as it is registered which hold a slot of its
/// gate, the one it has or a new one, are its runs under way.
pub proof fn lemma_under_way_held(m: DispatcherModel, agent: Seq<char>, slots: int)
    requires
        model::coherent(m),
        slots > 0,
        at_one_gate(m, agent, slots),
    ensures
        ({
            let n = model::with_gate(m, agent, slots);
            &&& model::held(n.runs, n.gate_of[agent]) == runs_under_way(m.runs, agent)
            &&& n.gates[n.gate_of[agent]] == slots
        }),
{
    let n = model::with_gate(m, agent, slots);
    proofs::lemma_with_gate(m, agent, slots);
    lemma_with_gate_at_one_gate(m, agent, slots, agent, slots);
    let g = n.gate_of[agent];
    assert forall|i: int| 0 <= i < n.runs.len() && (#[trigger] n.runs[i]) is Some implies (
    n.runs[i]->0.gate == g <==> n.runs[i]->0.agent == agent) by {
        assert(n.gate_of.dom().contains(agent));
        if n.runs[i]->0.gate == g {
            assert(model::run_at_gate(n.runs[i], n.gate_of[agent]));
        }
    }
    lemma_under_way_at_gate(n.runs, agent, g);
}

/// How many runs of an agent are neither waiting nor over.
pub open spec fn runs_under_way(runs: Seq<Option<RunModel>>, agent: Seq<char>) -> int
    decreases runs.len(),
{
    if runs.len() == 0 {
        0
    } else {
        runs_under_way(runs.drop_last(), agent) + if runs.last() is Some && runs.last()->0.agent
            == agent && runs.last()->0.stage != Stage::Waiting {
            1int
        } else {
            0
        }
    }
}

proof fn lemma_under_way_at_gate(runs: Seq<Option<RunModel>>, agent: Seq<char>, gate: int)
    requires
        forall|i: int|
            0 <= i < runs.len() && (#[trigger] runs[i]) is Some ==> (runs[i]->0.gate == gate
                <==> runs[i]->0.agent == agent),
    ensures
        runs_under_way(runs, agent) == model::held(runs, gate),
    decreases runs.len(),
{
    if runs.len() > 0 {
        let front = runs.drop_last();
        assert forall|i: int| 0 <= i < front.len() && (#[trigger] front[i]) is Some implies (
        front[i]->0.gate == gate <==> front[i]->0.agent == agent) by {
            assert(front[i] == runs[i]);
        }
        lemma_under_way_at_gate(front, agent, gate);
        assert(runs[runs.len() - 1] == runs.last());
    }
}

/// Where nothing is known of an agent yet, as in a new dispatcher, it is at no
/// gate.
pub proof fn lemma_new_agent(m: DispatcherModel, agent: Seq<char>, slots: int)
    requires
        !m.gate_of.dom().contains(agent),
        forall|i: int|
            0 <= i < m.runs.len() && (#[trigger] m.runs[i]) is Some ==> m.runs[i]->0.agent != agent,
    ensures
        at_one_gate(m, agent, slots),
{
}

// ---------------------------------------------------------------------------
// Every run ends
// ---------------------------------------------------------------------------

/// The most reports that a run at a stage still takes, and one more while it
/// waits.
pub open spec fn reports_left(run: Option<RunModel>) -> nat {
    match run {
        Some(r) => match r.stage {
            Stage::Waiting => 6,
            Stage::Looking => 5,
            Stage::Spawning => 4,
            Stage::Running => 3,
            Stage::Marking => 2,
            Stage::Acking => 1,
            Stage::Terming => 1,
        },
        None => 0,
    }
}

/// The same of all runs together.
pub open spec fn work_left(runs: Seq<Option<RunModel>>) -> nat
    decreases runs.len(),
{
    if runs.len() == 0 {
        0
    } else {
        work_left(runs.drop_last()) + reports_left(runs.last())
    }
}

proof fn lemma_work_update(runs: Seq<Option<RunModel>>, i: int, x: Option<RunModel>)
    requires
        0 <= i < runs.len(),
    ensures
        work_left(runs.update(i, x)) == work_left(runs) - reports_left(runs[i]) + reports_left(x),
    decreases runs.len(),
{
    let t = runs.update(i, x);
    if i == runs.len() - 1 {
        assert(t.drop_last() =~= runs.drop_last());
    } else {
        assert(t.drop_last() =~= runs.drop_last().update(i, x));
        lemma_work_update(runs.drop_last(), i, x);
    }
}

/// Every report that is taken brings the end of the runs nearer, so they take
/// no more than a certain number of reports.
pub proof fn lemma_reports_lead_to_the_end(m: DispatcherModel, run: int, report: Report)
    requires
        model::coherent(m),
        model::advance_of(m, run, report) is Some,
    ensures
        work_left((model::advance_of(m, run, report)->0).0.runs) < work_left(m.runs),
{
    let n = (model::advance_of(m, run, report)->0).0;
    let r = m.runs[run]->0;
    if m.runs[run]->0.stage != Stage::Spawning && !model::active(m.runs[run]) {
        proofs::lemma_released(m, run);
    }
    lemma_work_update(m.runs, run, n.runs[run]);
    if n.runs[run] is None {
        let gone = m.runs.update(run, None);
        let woken = model::released(m, run).1;
        if woken is Some {
            lemma_work_update(gone, woken->0, n.runs[woken->0]);
            assert(n.runs =~= gone.update(woken->0, n.runs[woken->0]));
        } else {
            assert(n.runs =~= gone);
        }
    } else {
        assert(n.runs =~= m.runs.update(run, n.runs[run]));
    }
}

/// As long as there are runs, one of them does not wait for another; so with
/// its reports coming in, every run ends.
pub proof fn lemma_one_can_go_on(m: DispatcherModel, run: int)
    requires
        model::coherent(m),
        model::stage_of(m, run) is Some,
    ensures
        exists|i: int|
            (#[trigger] model::stage_of(m, i)) is Some && model::stage_of(m, i) != Some(
                Stage::Waiting,
            ),
{
    if m.runs[run]->0.stage == Stage::Waiting {
        let gate = m.runs[run]->0.gate;
        assert(0 < m.gates[gate]);
        if forall|i: int| 0 <= i < m.runs.len() ==> !model::holds(#[trigger] m.runs[i], gate) {
            proofs::lemma_held_none(m.runs, gate);
        } else {
            let i = choose|i: int| 0 <= i < m.runs.len() && model::holds(#[trigger] m.runs[i], gate);
            assert(model::stage_of(m, i) is Some);
        }
    } else {
        assert(model::stage_of(m, run) is Some);
    }
}

// ---------------------------------------------------------------------------
// The events that are being handled
// ---------------------------------------------------------------------------

/// The events of an agent that are being handled.
pub open spec fn events_in_flight(m: DispatcherModel, agent: Seq<char>) -> Set<Seq<char>> {
    Set::new(|e: Seq<char>| model::is_in_flight(m, agent, e))
}

proof fn lemma_handled_events(m: DispatcherModel, agent: Seq<char>)
    requires
        laws::exclusive(m),
    ensures
        events_in_flight(m, agent).finite(),
        events_in_flight(m, agent).len() == model::handled(m.runs, agent),
    decreases m.runs.len(),
{
    let all = events_in_flight(m, agent);
    if m.runs.len() == 0 {
        assert(all =~= Set::empty());
    } else {
        let k = m.runs.len() - 1;
        let n = DispatcherModel { runs: m.runs.drop_last(), ..m };
        let some = events_in_flight(n, agent);
        assert forall|i: int| 0 <= i < n.runs.len() implies #[trigger] n.runs[i] == m.runs[i] by {}
        assert(laws::exclusive(n)) by {
            assert forall|i: int, j: int|
                #![trigger n.runs[i], n.runs[j]]
                0 <= i < j < n.runs.len() && model::active(n.runs[i]) && model::active(n.runs[j])
                    && n.runs[i]->0.agent == n.runs[j]->0.agent implies n.runs[i]->0.event_id
                != n.runs[j]->0.event_id by {
                assert(m.runs[i] == n.runs[i] && m.runs[j] == n.runs[j]);
            }
        }
        lemma_handled_events(n, agent);
        assert forall|e: Seq<char>| all.contains(e) == (some.contains(e) || model::handles(
            m.runs[k],
            agent,
            e,
        )) by {
            if model::is_in_flight(m, agent, e) {
                let i = choose|i: int|
                    0 <= i < m.runs.len() && model::handles(#[trigger] m.runs[i], agent, e);
                if i < k {
                    assert(model::handles(n.runs[i], agent, e));
                }
            }
            if model::is_in_flight(n, agent, e) {
                let i = choose|i: int|
                    0 <= i < n.runs.len() && model::handles(#[trigger] n.runs[i], agent, e);
                assert(model::handles(m.runs[i], agent, e));
            }
        }
        if model::active(m.runs[k]) && m.runs[k]->0.agent == agent {
            let e = m.runs[k]->0.event_id;
            assert(all =~= some.insert(e));
            assert(!some.contains(e)) by {
                if model::is_in_flight(n, agent, e) {
                    let i = choose|i: int|
                        0 <= i < n.runs.len() && model::handles(#[trigger] n.runs[i], agent, e);
                    assert(m.runs[i] == n.runs[i]);
                    assert(m.runs[i]->0.event_id != m.runs[k]->0.event_id);
                }
            }
        } else {
            assert(all =~= some);
        }
    }
}

/// The number of events being handled is that of the different ones: none
/// counts twice.
pub proof fn lemma_in_flight_counts_events(m: DispatcherModel, agent: Seq<char>)
    requires
        laws::exclusive(m),
    ensures
        events_in_flight(m, agent).finite(),
        model::in_flight_of(m, agent) == events_in_flight(m, agent).len(),
{
    lemma_handled_events(m, agent);
}

/// Taking gates away leaves the dispatcher coherent, and the agents without
/// one.
pub proof fn lemma_gates_gone(m: DispatcherModel, agents: Set<Seq<char>>)
    requires
        model::coherent(m),
    ensures
        model::coherent(model::without_gates(m, agents)),
        forall|a: Seq<char>| #[trigger]
            model::without_gates(m, agents).gate_of.dom().contains(a) <==> m.gate_of.dom().contains(
                a,
            ) && !agents.contains(a),
{
    proofs::lemma_without_gates(m, agents);
}

} // verus!
