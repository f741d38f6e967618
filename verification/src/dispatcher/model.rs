//! The dispatcher as a mathematical object: its states, and what each report
//! makes of them.

use vstd::prelude::*;

use crate::agent_id::AgentId;
use crate::error::AgentdError;
use crate::event;
use crate::event::EventEnvelope;
use crate::logging;
use crate::logging::events;
use crate::logging::{Level, RecordModel, SpanModel};
use crate::registry::AgentConfigModel;
use crate::text;

verus! {

/// How far the dispatch of one delivery is.
#[derive(Debug, Clone, Copy, PartialEq, Eq, Structural)]
pub enum Stage {
    /// Waiting for a slot of its agent.
    Waiting,
    /// Asking whether the event completed before.
    Looking,
    /// Starting the handler.
    Spawning,
    /// The handler is running.
    Running,
    /// Recording that the event completed.
    Marking,
    /// Acknowledging the delivery for good.
    Acking,
    /// Terminating the delivery for good.
    Terming,
}

/// Where a log line stands.
#[derive(Debug, Clone, Copy, PartialEq, Eq, Structural)]
pub enum Scope {
    /// Outside any span.
    Bare,
    /// In the span of the dispatch.
    Dispatch,
    /// In the span of the handler, which is inside that of the dispatch.
    Handler,
}

/// How a handler process ended.
#[derive(Debug)]
pub enum Exit {
    /// It exited with a code, or was ended by a signal.
    Status { code: Option<i32>, signal: Option<i32> },
    /// It could not be waited for, in the words of the system.
    WaitFailed(String),
}

/// What the caller hands back after an action.
#[derive(Debug)]
pub enum Report {
    /// Whether the event completed before, or why the store cannot tell.
    Found(Result<bool, AgentdError>),
    /// The handler's process id, or why it did not start.
    Spawned(Result<u32, String>),
    /// How the handler ended and how many nanoseconds it ran.
    Exited { exit: Exit, elapsed: u128 },
    /// Whether the store recorded the completion.
    Marked(Result<(), AgentdError>),
    /// Whether the relay confirmed the acknowledgement.
    Acked(Result<(), String>),
    /// The relay was told to terminate the delivery.
    Termed,
}

/// One message of the relay. `agent` is the agent of the consumer that it came
/// through.
#[derive(Debug)]
pub struct Delivery {
    pub agent: AgentId,
    /// The original bytes of the message, for the handler to read unmodified.
    pub raw: Vec<u8>,
    pub stream_sequence: u64,
    pub consumer_sequence: u64,
    pub delivery_count: u64,
}

/// One log line.
#[verifier::ext_equal]
pub struct LineModel {
    pub scope: Scope,
    pub record: RecordModel,
}

/// How to start a handler.
#[verifier::ext_equal]
pub struct PlanModel {
    pub program: Seq<char>,
    pub env: Seq<(Seq<char>, Seq<char>)>,
    pub working_directory: Option<Seq<char>>,
    pub stdin: Seq<u8>,
}

/// What the caller is to do next for a run.
#[verifier::ext_equal]
pub enum ActionModel {
    /// Nothing, until another run hands its slot on.
    Queue,
    /// Ask whether the event completed before.
    LookUp,
    /// Start the handler.
    Spawn(PlanModel),
    /// Feed the handler and wait for its end.
    Supervise(SpanModel),
    /// Record that the event completed.
    Mark,
    /// Acknowledge the delivery.
    Ack,
    /// Terminate the delivery.
    Term,
    /// Nothing any more: the run is over.
    Finish,
}

/// What a report leads to: what to log, what to do next, and the waiting run
/// that may go on now, whose next action is to look its event up.
#[verifier::ext_equal]
pub struct StepModel {
    pub log: Seq<LineModel>,
    pub action: ActionModel,
    pub woken: Option<int>,
}

/// The dispatch of one delivery.
#[verifier::ext_equal]
pub struct RunModel {
    pub agent: Seq<char>,
    pub event_id: Seq<char>,
    pub event_type: Seq<char>,
    pub raw: Seq<u8>,
    pub stream_sequence: int,
    pub consumer_sequence: int,
    pub delivery_count: int,
    pub handler: Seq<char>,
    pub working_directory: Option<Seq<char>>,
    /// Its gate: it holds a slot there, or waits for one.
    pub gate: int,
    pub stage: Stage,
}

/// The dispatcher.
#[verifier::ext_equal]
pub struct DispatcherModel {
    /// From how many nanoseconds on a handler is called slow.
    pub slow: int,
    /// The size above which an event is refused.
    pub max_event_bytes: int,
    /// Gates by agent. A gate limits the handlers of its agent.
    pub gate_of: Map<Seq<char>, int>,
    /// How many slots each gate has.
    pub gates: Seq<int>,
    /// The runs by number; over ones leave their numbers free.
    pub runs: Seq<Option<RunModel>>,
    /// The waiting runs, the longest-waiting first.
    pub queue: Seq<int>,
}

// ---------------------------------------------------------------------------
// Slots
// ---------------------------------------------------------------------------

/// Whether a run holds a slot of a gate. It does from its turn on until it is
/// over.
pub open spec fn holds(run: Option<RunModel>, gate: int) -> bool {
    match run {
        Some(r) => r.gate == gate && r.stage != Stage::Waiting,
        None => false,
    }
}

/// Whether a run waits for a slot of a gate.
pub open spec fn waits(run: Option<RunModel>, gate: int) -> bool {
    match run {
        Some(r) => r.gate == gate && r.stage == Stage::Waiting,
        None => false,
    }
}

/// How many slots of a gate are taken.
pub open spec fn held(runs: Seq<Option<RunModel>>, gate: int) -> int
    decreases runs.len(),
{
    if runs.len() == 0 {
        0
    } else {
        held(runs.drop_last(), gate) + if holds(runs.last(), gate) {
            1int
        } else {
            0
        }
    }
}

/// Whether an agent or a run refers to a gate.
pub open spec fn gate_in_use(m: DispatcherModel, gate: int) -> bool {
    ||| exists|a: Seq<char>|
        #[trigger] m.gate_of.dom().contains(a) && m.gate_of[a] == gate
    ||| exists|i: int| 0 <= i < m.runs.len() && run_at_gate(#[trigger] m.runs[i], gate)
}

/// Whether a run holds a slot of a gate or waits for one.
pub open spec fn run_at_gate(run: Option<RunModel>, gate: int) -> bool {
    run is Some && run->0.gate == gate
}

/// The first gate from `from` on that nothing refers to.
pub open spec fn fresh_gate(m: DispatcherModel, from: int) -> int
    decreases m.gates.len() - from,
{
    if from < 0 || from >= m.gates.len() || !gate_in_use(m, from) {
        from
    } else {
        fresh_gate(m, from + 1)
    }
}

/// The dispatcher with a gate for the agent: the one it has, or a new one with
/// the given number of slots.
pub open spec fn with_gate(m: DispatcherModel, agent: Seq<char>, slots: int) -> DispatcherModel {
    if m.gate_of.dom().contains(agent) {
        m
    } else {
        let g = fresh_gate(m, 0);
        DispatcherModel {
            gates: if g < m.gates.len() {
                m.gates.update(g, slots)
            } else {
                m.gates.push(slots)
            },
            gate_of: m.gate_of.insert(agent, g),
            ..m
        }
    }
}

/// How many more deliveries of an agent can be handled right now. For an agent
/// that is not registered, or is disabled, none.
pub open spec fn available_of(
    m: DispatcherModel,
    agents: Map<Seq<char>, AgentConfigModel>,
    agent: Seq<char>,
) -> (DispatcherModel, int) {
    if agents.dom().contains(agent) && agents[agent].enabled {
        let n = with_gate(m, agent, agents[agent].max_concurrency as int);
        let g = n.gate_of[agent];
        (n, n.gates[g] - held(n.runs, g))
    } else {
        (m, 0)
    }
}

/// The dispatcher without the gates of the agents. The runs stay as they are,
/// and so do the events that are being handled.
pub open spec fn without_gates(m: DispatcherModel, agents: Set<Seq<char>>) -> DispatcherModel {
    DispatcherModel { gate_of: m.gate_of.remove_keys(agents), ..m }
}

/// How many of the runs handle an event of an agent.
pub open spec fn handled(runs: Seq<Option<RunModel>>, agent: Seq<char>) -> nat
    decreases runs.len(),
{
    if runs.len() == 0 {
        0
    } else {
        handled(runs.drop_last(), agent) + if active(runs.last()) && runs.last()->0.agent == agent {
            1nat
        } else {
            0
        }
    }
}

/// How many events of an agent are being handled.
pub open spec fn in_flight_of(m: DispatcherModel, agent: Seq<char>) -> nat {
    handled(m.runs, agent)
}

/// The lowest number from `from` on that no run has.
pub open spec fn free_number(runs: Seq<Option<RunModel>>, from: int) -> int
    decreases runs.len() - from,
{
    if from < 0 || from >= runs.len() || runs[from] is None {
        from
    } else {
        free_number(runs, from + 1)
    }
}

/// The place from `from` on of the first run in the queue that waits for a
/// gate; the queue's length where there is none.
pub open spec fn next_in_line(m: DispatcherModel, gate: int, from: int) -> int
    decreases m.queue.len() - from,
{
    if from < 0 || from >= m.queue.len() || waits(m.runs[m.queue[from]], gate) {
        from
    } else {
        next_in_line(m, gate, from + 1)
    }
}

/// A run ends: its number becomes free, and its slot goes to the run that has
/// waited for it longest, if one does.
pub open spec fn released(m: DispatcherModel, run: int) -> (DispatcherModel, Option<int>) {
    let gate = m.runs[run]->0.gate;
    let n = DispatcherModel { runs: m.runs.update(run, None), ..m };
    let k = next_in_line(n, gate, 0);
    if k < n.queue.len() {
        let w = n.queue[k];
        (
            DispatcherModel {
                runs: n.runs.update(w, Some(RunModel { stage: Stage::Looking, ..n.runs[w]->0 })),
                queue: n.queue.remove(k),
                ..n
            },
            Some(w),
        )
    } else {
        (n, None)
    }
}

/// A run reaches another stage.
pub open spec fn at_stage(m: DispatcherModel, run: int, stage: Stage) -> DispatcherModel {
    DispatcherModel {
        runs: m.runs.update(run, Some(RunModel { stage, ..m.runs[run]->0 })),
        ..m
    }
}

// ---------------------------------------------------------------------------
// Admission
// ---------------------------------------------------------------------------

/// A line outside any span.
pub open spec fn bare(record: RecordModel) -> LineModel {
    LineModel { scope: Scope::Bare, record }
}

/// A line in the span of the dispatch.
pub open spec fn in_dispatch(record: RecordModel) -> LineModel {
    LineModel { scope: Scope::Dispatch, record }
}

/// A line in the span of the handler.
pub open spec fn in_handler(record: RecordModel) -> LineModel {
    LineModel { scope: Scope::Handler, record }
}

/// A record about one agent.
pub open spec fn about(level: Level, message: Seq<char>, agent: Seq<char>) -> RecordModel {
    logging::record_of(level, message, seq![logging::text_of("agent_id"@, agent)])
}

/// What is said of an event that is too large, if it is.
pub open spec fn oversize(m: DispatcherModel, size: int) -> Option<RecordModel> {
    if size > m.max_event_bytes {
        Some(
            events::invalid_event_of(
                "event exceeds size limit ("@ + text::decimal(size as nat) + " > "@ + text::decimal(
                    m.max_event_bytes as nat,
                ) + ")"@,
            ),
        )
    } else {
        None
    }
}

/// Why a delivery is refused for good, if it is: it is too large, holds no
/// envelope that can be dispatched, is for another agent than its consumer's,
/// or is for an agent that is not registered or is disabled.
pub open spec fn rejection(
    m: DispatcherModel,
    agents: Map<Seq<char>, AgentConfigModel>,
    d: Delivery,
    decoded: Result<EventEnvelope, String>,
) -> Option<RecordModel> {
    match oversize(m, d.raw@.len() as int) {
        Some(r) => Some(r),
        None => match event::envelope_outcome(decoded) {
            Err(e) => Some(events::invalid_event_of("invalid event envelope: "@ + e)),
            Ok(envelope) => if envelope.agent_id@ != d.agent@ {
                Some(
                    events::invalid_event_of(
                        "envelope agent_id "@ + envelope.agent_id@
                            + " does not match consumer agent "@ + d.agent@,
                    ),
                )
            } else if !agents.dom().contains(d.agent@) {
                Some(about(Level::Warn, "delivery for unregistered agent"@, d.agent@))
            } else if !agents[d.agent@].enabled {
                Some(about(Level::Warn, "delivery for disabled agent"@, d.agent@))
            } else {
                None
            },
        },
    }
}

/// The run of an accepted delivery.
pub open spec fn run_of(
    d: Delivery,
    envelope: EventEnvelope,
    config: AgentConfigModel,
    gate: int,
    stage: Stage,
) -> RunModel {
    RunModel {
        agent: d.agent@,
        event_id: envelope.event_id@,
        event_type: envelope.event_type@,
        raw: d.raw@,
        stream_sequence: d.stream_sequence as int,
        consumer_sequence: d.consumer_sequence as int,
        delivery_count: d.delivery_count as int,
        handler: config.handler,
        working_directory: config.working_directory,
        gate,
        stage,
    }
}

/// What an accepted delivery starts.
#[verifier::ext_equal]
pub struct StartModel {
    pub run: int,
    pub span: SpanModel,
    pub step: StepModel,
}

/// A run joins: it takes a free slot of its agent's gate, or the end of the
/// queue.
pub open spec fn joined(
    m: DispatcherModel,
    d: Delivery,
    envelope: EventEnvelope,
    config: AgentConfigModel,
) -> (DispatcherModel, StartModel) {
    let n = with_gate(m, d.agent@, config.max_concurrency as int);
    let gate = n.gate_of[d.agent@];
    let free = held(n.runs, gate) < n.gates[gate];
    let stage = if free {
        Stage::Looking
    } else {
        Stage::Waiting
    };
    let run = Some(run_of(d, envelope, config, gate, stage));
    let i = free_number(n.runs, 0);
    (
        DispatcherModel {
            runs: if i < n.runs.len() {
                n.runs.update(i, run)
            } else {
                n.runs.push(run)
            },
            queue: if free {
                n.queue
            } else {
                n.queue.push(i)
            },
            ..n
        },
        StartModel {
            run: i,
            span: logging::dispatch_span_of(
                d.agent@,
                envelope.event_id@,
                "agent-"@ + d.agent@,
                d.stream_sequence as int,
            ),
            step: StepModel {
                log: seq![in_dispatch(logging::record_of(Level::Info, "event received"@, seq![]))],
                action: if free {
                    ActionModel::LookUp
                } else {
                    ActionModel::Queue
                },
                woken: None,
            },
        },
    )
}

/// What becomes of a delivery: refused for good, or started.
pub open spec fn dispatch_of(
    m: DispatcherModel,
    agents: Map<Seq<char>, AgentConfigModel>,
    d: Delivery,
    decoded: Result<EventEnvelope, String>,
) -> (DispatcherModel, Result<StartModel, RecordModel>) {
    match rejection(m, agents, d, decoded) {
        Some(r) => (m, Err(r)),
        None => {
            let (n, start) = joined(m, d, decoded->Ok_0, agents[d.agent@]);
            (n, Ok(start))
        },
    }
}

// ---------------------------------------------------------------------------
// Reports
// ---------------------------------------------------------------------------

/// The exit status that is logged: the code, or the negated signal, or -1
/// where there is neither.
pub open spec fn status_of(code: Option<i32>, signal: Option<i32>) -> int {
    match code {
        Some(c) => c as int,
        None => match signal {
            Some(s) => -(s as int),
            None => -1,
        },
    }
}

/// The exit status of a handler.
pub open spec fn exit_of(exit: Exit) -> int {
    match exit {
        Exit::Status { code, signal } => status_of(code, signal),
        Exit::WaitFailed(_) => -1,
    }
}

/// How to start the handler of a run: the program that is registered locally,
/// with the run's coordinates in its environment and the original bytes of the
/// message on its input.
pub open spec fn plan_of(r: RunModel) -> PlanModel {
    PlanModel {
        program: r.handler,
        env: seq![
            ("AGENTD_AGENT_ID"@, r.agent),
            ("AGENTD_EVENT_ID"@, r.event_id),
            ("AGENTD_EVENT_TYPE"@, r.event_type),
            ("AGENTD_STREAM_SEQUENCE"@, text::decimal(r.stream_sequence as nat)),
            ("AGENTD_CONSUMER_SEQUENCE"@, text::decimal(r.consumer_sequence as nat)),
            ("AGENTD_DELIVERY_COUNT"@, text::decimal(r.delivery_count as nat)),
        ],
        working_directory: r.working_directory,
        stdin: r.raw,
    }
}

/// A handler may start: its event is being handled from now on.
pub open spec fn started(m: DispatcherModel, run: int) -> DispatcherModel {
    DispatcherModel {
        runs: m.runs.update(
            run,
            Some(RunModel { stage: Stage::Spawning, raw: Seq::empty(), ..m.runs[run]->0 }),
        ),
        ..m
    }
}

/// Whether an event of an agent is being handled: it is from the moment that
/// its handler may start until its completion was recorded.
pub open spec fn is_in_flight(m: DispatcherModel, agent: Seq<char>, event_id: Seq<char>) -> bool {
    exists|i: int| 0 <= i < m.runs.len() && handles(#[trigger] m.runs[i], agent, event_id)
}

/// After the lookup. An event that completed before is acknowledged and its
/// handler skipped; a store that cannot tell does not stop the dispatch; an
/// event that is being handled right now is dropped without an answer; any
/// other is handed to its handler.
pub open spec fn found_to(m: DispatcherModel, run: int, found: Result<bool, AgentdError>) -> (
    DispatcherModel,
    StepModel,
) {
    let r = m.runs[run]->0;
    if found == Ok::<bool, AgentdError>(true) {
        (
            at_stage(m, run, Stage::Acking),
            StepModel {
                log: seq![in_dispatch(logging::record_of(Level::Info, "dedup hit"@, seq![]))],
                action: ActionModel::Ack,
                woken: None,
            },
        )
    } else {
        let log = match found {
            Ok(_) => seq![],
            Err(e) => seq![
                bare(
                    about(
                        Level::Error,
                        "dedup lookup failed; dispatching anyway: "@ + e.message(),
                        r.agent,
                    ),
                ),
            ],
        };
        if is_in_flight(m, r.agent, r.event_id) {
            let (n, woken) = released(m, run);
            (
                n,
                StepModel {
                    log: log.push(
                        in_dispatch(
                            logging::record_of(
                                Level::Warn,
                                "in-flight duplicate dropped"@,
                                seq![],
                            ),
                        ),
                    ),
                    action: ActionModel::Finish,
                    woken,
                },
            )
        } else {
            (
                started(m, run),
                StepModel { log, action: ActionModel::Spawn(plan_of(r)), woken: None },
            )
        }
    }
}

/// After the start of the handler. One that does not start is terminal.
pub open spec fn spawned_to(m: DispatcherModel, run: int, outcome: Result<u32, String>) -> (
    DispatcherModel,
    StepModel,
) {
    let r = m.runs[run]->0;
    match outcome {
        Ok(pid) => (
            at_stage(m, run, Stage::Running),
            StepModel {
                log: seq![in_handler(events::handler_spawned_of(r.handler, pid as int))],
                action: ActionModel::Supervise(logging::handler_span_of(r.handler, pid as int)),
                woken: None,
            },
        ),
        Err(e) => (
            at_stage(m, run, Stage::Terming),
            StepModel {
                log: seq![in_dispatch(events::handler_spawn_failed_of(r.handler, e@))],
                action: ActionModel::Term,
                woken: None,
            },
        ),
    }
}

/// The milliseconds that are logged of a running time.
pub open spec fn logged_ms(elapsed: u128) -> int {
    (elapsed as int / 1_000_000) % 0x1_0000_0000_0000_0000
}

/// After the end of the handler. Whatever its status, the event completed; a
/// handler that ran longer than the threshold is reported, and that is all.
pub open spec fn exited_to(m: DispatcherModel, run: int, exit: Exit, elapsed: u128) -> (
    DispatcherModel,
    StepModel,
) {
    let r = m.runs[run]->0;
    let failed = match exit {
        Exit::Status { .. } => seq![],
        Exit::WaitFailed(e) => seq![
            bare(about(Level::Error, "failed to wait for handler: "@ + e@, r.agent)),
        ],
    };
    let exited = failed.push(in_handler(events::handler_exited_of(exit_of(exit), logged_ms(elapsed))));
    let log = if elapsed > m.slow {
        exited.push(
            bare(
                logging::record_of(
                    Level::Warn,
                    "handler exceeded the slow-handler warning threshold; not a timeout"@,
                    seq![
                        logging::text_of("agent_id"@, r.agent),
                        logging::text_of("handler_path"@, r.handler),
                        logging::unsigned_of("duration_ms"@, logged_ms(elapsed)),
                    ],
                ),
            ),
        )
    } else {
        exited
    };
    (
        at_stage(m, run, Stage::Marking),
        StepModel { log, action: ActionModel::Mark, woken: None },
    )
}

/// After recording the completion. The handler ran, so the delivery is
/// acknowledged even where the store failed.
pub open spec fn marked_to(m: DispatcherModel, run: int, outcome: Result<(), AgentdError>) -> (
    DispatcherModel,
    StepModel,
) {
    let r = m.runs[run]->0;
    (
        at_stage(m, run, Stage::Acking),
        StepModel {
            log: match outcome {
                Ok(_) => seq![],
                Err(e) => seq![
                    bare(
                        about(
                            Level::Error,
                            "dedup mark failed; acking anyway: "@ + e.message(),
                            r.agent,
                        ),
                    ),
                ],
            },
            action: ActionModel::Ack,
            woken: None,
        },
    )
}

/// After the acknowledgement: the run is over, confirmed or not.
pub open spec fn acked_to(m: DispatcherModel, run: int, outcome: Result<(), String>) -> (
    DispatcherModel,
    StepModel,
) {
    let (n, woken) = released(m, run);
    (
        n,
        StepModel {
            log: seq![
                in_dispatch(
                    match outcome {
                        Ok(_) => logging::record_of(Level::Info, "ack succeeded"@, seq![]),
                        Err(e) => events::ack_failure_of(e@),
                    },
                ),
            ],
            action: ActionModel::Finish,
            woken,
        },
    )
}

/// After the termination: the run is over.
pub open spec fn termed_to(m: DispatcherModel, run: int) -> (DispatcherModel, StepModel) {
    let (n, woken) = released(m, run);
    (n, StepModel { log: seq![], action: ActionModel::Finish, woken })
}

/// The stage of a run, if there is a run of this number.
pub open spec fn stage_of(m: DispatcherModel, run: int) -> Option<Stage> {
    if 0 <= run < m.runs.len() && m.runs[run] is Some {
        Some(m.runs[run]->0.stage)
    } else {
        None
    }
}

/// What a report makes of the dispatcher, and what it leads to. A report that
/// the run is not waiting for leads to nothing.
pub open spec fn advance_of(m: DispatcherModel, run: int, report: Report) -> Option<
    (DispatcherModel, StepModel),
> {
    match (stage_of(m, run), report) {
        (Some(Stage::Looking), Report::Found(found)) => Some(found_to(m, run, found)),
        (Some(Stage::Spawning), Report::Spawned(outcome)) => Some(spawned_to(m, run, outcome)),
        (Some(Stage::Running), Report::Exited { exit, elapsed }) => Some(
            exited_to(m, run, exit, elapsed),
        ),
        (Some(Stage::Marking), Report::Marked(outcome)) => Some(marked_to(m, run, outcome)),
        (Some(Stage::Acking), Report::Acked(outcome)) => Some(acked_to(m, run, outcome)),
        (Some(Stage::Terming), Report::Termed) => Some(termed_to(m, run)),
        _ => None,
    }
}

// ---------------------------------------------------------------------------
// What always holds
// ---------------------------------------------------------------------------

/// Whether the handler of a run is being started, is running or has its
/// completion recorded.
pub open spec fn active(run: Option<RunModel>) -> bool {
    match run {
        Some(r) => r.stage == Stage::Spawning || r.stage == Stage::Running || r.stage
            == Stage::Marking,
        None => false,
    }
}

/// Whether a run is handling an event of an agent.
pub open spec fn handles(run: Option<RunModel>, agent: Seq<char>, event_id: Seq<char>) -> bool {
    active(run) && run->0.agent == agent && run->0.event_id == event_id
}

/// Every agent and every run refers to a gate that exists, and every gate is
/// of one agent.
pub open spec fn gates_ok(m: DispatcherModel) -> bool {
    &&& forall|a: Seq<char>|
        #[trigger] m.gate_of.dom().contains(a) ==> 0 <= m.gate_of[a] < m.gates.len()
    &&& forall|i: int|
        0 <= i < m.runs.len() && (#[trigger] m.runs[i]) is Some ==> 0 <= m.runs[i]->0.gate
            < m.gates.len()
    &&& forall|a: Seq<char>, b: Seq<char>|
        #[trigger] m.gate_of.dom().contains(a) && #[trigger] m.gate_of.dom().contains(b)
            && m.gate_of[a] == m.gate_of[b] ==> a == b
    &&& forall|a: Seq<char>, i: int|
        #[trigger] m.gate_of.dom().contains(a) && 0 <= i < m.runs.len() && run_at_gate(
            #[trigger] m.runs[i],
            m.gate_of[a],
        ) ==> m.runs[i]->0.agent == a
    &&& forall|i: int, j: int|
        0 <= i < m.runs.len() && 0 <= j < m.runs.len() && (#[trigger] m.runs[i]) is Some && (
        #[trigger] m.runs[j]) is Some && m.runs[i]->0.gate == m.runs[j]->0.gate
            ==> m.runs[i]->0.agent == m.runs[j]->0.agent
}

/// Every gate has a slot, no gate lets in more runs than it has slots, and none
/// lets a run wait while it has a free slot.
pub open spec fn slots_ok(m: DispatcherModel) -> bool {
    &&& forall|g: int|
        #![trigger m.gates[g]]
        0 <= g < m.gates.len() ==> 0 < m.gates[g] && held(m.runs, g) <= m.gates[g]
    &&& forall|i: int|
        0 <= i < m.runs.len() && (#[trigger] m.runs[i]) is Some && m.runs[i]->0.stage
            == Stage::Waiting ==> held(m.runs, m.runs[i]->0.gate) == m.gates[m.runs[i]->0.gate]
}

/// The queue holds the waiting runs, each once.
pub open spec fn queue_ok(m: DispatcherModel) -> bool {
    &&& forall|k: int|
        0 <= k < m.queue.len() ==> 0 <= #[trigger] m.queue[k] < m.runs.len()
            && m.runs[m.queue[k]] is Some && m.runs[m.queue[k]]->0.stage == Stage::Waiting
    &&& forall|k: int, l: int|
        0 <= k < l < m.queue.len() ==> #[trigger] m.queue[k] != #[trigger] m.queue[l]
    &&& forall|i: int|
        0 <= i < m.runs.len() && (#[trigger] m.runs[i]) is Some && m.runs[i]->0.stage
            == Stage::Waiting ==> m.queue.contains(i)
}

/// Every handler is an absolute path.
pub open spec fn handlers_ok(m: DispatcherModel) -> bool {
    forall|i: int|
        0 <= i < m.runs.len() && (#[trigger] m.runs[i]) is Some ==> text::is_absolute(
            m.runs[i]->0.handler,
        )
}

/// What holds of the dispatcher at all times.
pub open spec fn coherent(m: DispatcherModel) -> bool {
    &&& gates_ok(m)
    &&& slots_ok(m)
    &&& queue_ok(m)
    &&& handlers_ok(m)
}

} // verus!
