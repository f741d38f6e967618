//! Event dispatch: turns one delivery of the relay into one invocation of a
//! local handler.
//!
//! The dispatcher decides and the caller acts. A delivery that is accepted
//! becomes a run; for every run the dispatcher says what to do next, the
//! caller does it and reports how it went. There are no retries, whatever a
//! handler's exit status, and no timeouts. Every run that is not dropped as a
//! duplicate ends in exactly one answer to the relay: an acknowledgement, or a
//! termination where the handler could not be started.
//!
//! A store of completed events that fails never blocks a dispatch and never
//! multiplies handlers: a lookup that fails dispatches anyway, and a record
//! that fails after the handler ran is acknowledged anyway.

use vstd::prelude::*;
use vstd::string::*;

use crate::agent_id::AgentId;
use crate::agent_map::AgentMap;
use crate::error::AgentdError;
use crate::event;
use crate::event::EventEnvelope;
use crate::logging;
use crate::logging::events;
use crate::logging::{
    plain, text_field, unsigned_field, with_one, with_three, Level, Record, Span,
};
use crate::registry;
use crate::registry::{AgentConfig, Change, Registry};
use crate::relay::consumer_name;
use crate::text;
use crate::text::{append_decimal, copy_opt, decimal_text, glue, same_text};

pub mod histories;
pub mod laws;
pub mod model;
mod proofs;
pub mod rules;

pub use crate::dedup::DedupCheck;
pub use model::{Delivery, Exit, Report, Scope, Stage};

verus! {

/// One log line and where it stands.
#[derive(Debug)]
pub struct LogLine {
    pub scope: Scope,
    pub record: Record,
}

impl View for LogLine {
    type V = model::LineModel;

    open spec fn view(&self) -> model::LineModel {
        model::LineModel { scope: self.scope, record: self.record@ }
    }
}

/// One variable of a handler's environment.
#[derive(Debug)]
pub struct EnvVar {
    pub name: &'static str,
    pub value: String,
}

impl View for EnvVar {
    type V = (Seq<char>, Seq<char>);

    open spec fn view(&self) -> (Seq<char>, Seq<char>) {
        (self.name@, self.value@)
    }
}

/// How to start a handler: a program to execute directly, what to add to its
/// environment, where to run it, and what to write to its input.
#[derive(Debug)]
pub struct SpawnPlan {
    pub program: String,
    pub env: Vec<EnvVar>,
    pub working_directory: Option<String>,
    pub stdin: Vec<u8>,
}

/// The models of a list of variables.
pub open spec fn env_view(env: Seq<EnvVar>) -> Seq<(Seq<char>, Seq<char>)> {
    env.map_values(|v: EnvVar| v@)
}

impl View for SpawnPlan {
    type V = model::PlanModel;

    open spec fn view(&self) -> model::PlanModel {
        model::PlanModel {
            program: self.program@,
            env: env_view(self.env@),
            working_directory: text::opt_view(self.working_directory),
            stdin: self.stdin@,
        }
    }
}

/// What to do next for a run.
#[derive(Debug)]
pub enum Action {
    /// Nothing, until another run hands its slot on.
    Queue,
    /// Ask whether the event completed before.
    LookUp,
    /// Start the handler.
    Spawn(SpawnPlan),
    /// Feed the handler and wait for its end. The span is for its records.
    Supervise(Span),
    /// Record that the event completed.
    Mark,
    /// Acknowledge the delivery.
    Ack,
    /// Terminate the delivery.
    Term,
    /// Nothing any more: the run is over.
    Finish,
}

impl View for Action {
    type V = model::ActionModel;

    open spec fn view(&self) -> model::ActionModel {
        match self {
            Action::Queue => model::ActionModel::Queue,
            Action::LookUp => model::ActionModel::LookUp,
            Action::Spawn(p) => model::ActionModel::Spawn(p@),
            Action::Supervise(s) => model::ActionModel::Supervise(s@),
            Action::Mark => model::ActionModel::Mark,
            Action::Ack => model::ActionModel::Ack,
            Action::Term => model::ActionModel::Term,
            Action::Finish => model::ActionModel::Finish,
        }
    }
}

/// What a report leads to: what to log, what to do next, and the waiting run
/// that may go on now, whose next action is to look its event up.
#[derive(Debug)]
pub struct Step {
    pub log: Vec<LogLine>,
    pub action: Action,
    pub woken: Option<usize>,
}

/// The models of a list of lines.
pub open spec fn lines_view(log: Seq<LogLine>) -> Seq<model::LineModel> {
    log.map_values(|l: LogLine| l@)
}

/// The number of a run as an integer.
pub open spec fn number_view(run: Option<usize>) -> Option<int> {
    match run {
        Some(n) => Some(n as int),
        None => None,
    }
}

impl View for Step {
    type V = model::StepModel;

    open spec fn view(&self) -> model::StepModel {
        model::StepModel {
            log: lines_view(self.log@),
            action: self.action@,
            woken: number_view(self.woken),
        }
    }
}

/// What an accepted delivery starts: the run's number, the span for its
/// records, and its first step.
#[derive(Debug)]
pub struct Start {
    pub run: usize,
    pub span: Span,
    pub step: Step,
}

impl View for Start {
    type V = model::StartModel;

    open spec fn view(&self) -> model::StartModel {
        model::StartModel { run: self.run as int, span: self.span@, step: self.step@ }
    }
}

/// The dispatch of one delivery.
#[derive(Debug)]
struct Run {
    agent: AgentId,
    event_id: String,
    event_type: String,
    raw: Vec<u8>,
    stream_sequence: u64,
    consumer_sequence: u64,
    delivery_count: u64,
    handler: String,
    working_directory: Option<String>,
    gate: usize,
    stage: Stage,
}

impl Run {
    spec fn model(self) -> model::RunModel {
        model::RunModel {
            agent: self.agent@,
            event_id: self.event_id@,
            event_type: self.event_type@,
            raw: self.raw@,
            stream_sequence: self.stream_sequence as int,
            consumer_sequence: self.consumer_sequence as int,
            delivery_count: self.delivery_count as int,
            handler: self.handler@,
            working_directory: text::opt_view(self.working_directory),
            gate: self.gate as int,
            stage: self.stage,
        }
    }
}

spec fn run_model(run: Option<Run>) -> Option<model::RunModel> {
    match run {
        Some(r) => Some(r.model()),
        None => None,
    }
}

spec fn runs_model(runs: Seq<Option<Run>>) -> Seq<Option<model::RunModel>> {
    runs.map_values(|r: Option<Run>| run_model(r))
}

spec fn gates_model(gate_of: Map<Seq<char>, usize>) -> Map<Seq<char>, int> {
    gate_of.map_values(|g: usize| g as int)
}

spec fn ints(v: Seq<usize>) -> Seq<int> {
    v.map_values(|n: usize| n as int)
}

/// The dispatcher.
#[derive(Debug)]
pub struct Dispatcher {
    slow: u128,
    max_event_bytes: usize,
    gate_of: AgentMap<usize>,
    gates: Vec<usize>,
    runs: Vec<Option<Run>>,
    queue: Vec<usize>,
}

impl View for Dispatcher {
    type V = model::DispatcherModel;

    closed spec fn view(&self) -> model::DispatcherModel {
        model::DispatcherModel {
            slow: self.slow as int,
            max_event_bytes: self.max_event_bytes as int,
            gate_of: gates_model(self.gate_of@),
            gates: ints(self.gates@),
            runs: runs_model(self.runs@),
            queue: ints(self.queue@),
        }
    }
}

fn line(scope: Scope, record: Record) -> (l: LogLine)
    ensures
        l@ == (model::LineModel { scope, record: record@ }),
{
    LogLine { scope, record }
}

fn push_line(log: &mut Vec<LogLine>, l: LogLine)
    ensures
        lines_view(final(log)@) == lines_view(old(log)@).push(l@),
{
    let ghost was = lines_view(log@);
    log.push(l);
    assert(lines_view(log@) =~= was.push(l@));
}

fn no_lines() -> (log: Vec<LogLine>)
    ensures
        lines_view(log@) == Seq::<model::LineModel>::empty(),
{
    let log: Vec<LogLine> = Vec::new();
    assert(lines_view(log@) =~= Seq::<model::LineModel>::empty());
    log
}

fn one_line(scope: Scope, record: Record) -> (log: Vec<LogLine>)
    ensures
        lines_view(log@) == seq![(model::LineModel { scope, record: record@ })],
{
    let mut log = no_lines();
    push_line(&mut log, line(scope, record));
    assert(lines_view(log@) =~= seq![(model::LineModel { scope, record: record@ })]);
    log
}

fn agent_record(level: Level, message: &str, agent: &AgentId) -> (r: Record)
    ensures
        r@ == model::about(level, message@, agent@),
{
    with_one(level, message, text_field("agent_id", agent.as_str()))
}

/// The exit status that is logged: the code where the process exited by
/// itself, the negated signal where a signal ended it, and -1 otherwise.
pub fn exit_status_of(code: Option<i32>, signal: Option<i32>) -> (r: i32)
    requires
        signal != Some(i32::MIN),
    ensures
        r == model::status_of(code, signal),
{
    match code {
        Some(c) => c,
        None => match signal {
            Some(s) => -s,
            None => -1,
        },
    }
}

/// Whether the handler of a run at a stage is being started, is running or has
/// its completion recorded.
fn is_active(stage: Stage) -> (r: bool)
    ensures
        r == (stage == Stage::Spawning || stage == Stage::Running || stage == Stage::Marking),
{
    stage == Stage::Spawning || stage == Stage::Running || stage == Stage::Marking
}

fn env_var(name: &'static str, value: String) -> (v: EnvVar)
    ensures
        v@ == (name@, value@),
{
    EnvVar { name, value }
}

/// How to start the handler of a run; takes the bytes of the message out of
/// the run.
fn take_plan(r: Run) -> (out: (SpawnPlan, Run))
    ensures
        out.0@ == model::plan_of(r.model()),
        out.1.model() == (model::RunModel {
            stage: Stage::Spawning,
            raw: Seq::empty(),
            ..r.model()
        }),
{
    let mut env: Vec<EnvVar> = Vec::new();
    env.push(env_var("AGENTD_AGENT_ID", r.agent.to_string()));
    env.push(env_var("AGENTD_EVENT_ID", r.event_id.clone()));
    env.push(env_var("AGENTD_EVENT_TYPE", r.event_type.clone()));
    env.push(env_var("AGENTD_STREAM_SEQUENCE", decimal_text(r.stream_sequence)));
    env.push(env_var("AGENTD_CONSUMER_SEQUENCE", decimal_text(r.consumer_sequence)));
    env.push(env_var("AGENTD_DELIVERY_COUNT", decimal_text(r.delivery_count)));
    let plan = SpawnPlan {
        program: r.handler.clone(),
        env,
        working_directory: copy_opt(&r.working_directory),
        stdin: r.raw,
    };
    assert(env_view(plan.env@) =~= model::plan_of(r.model()).env);
    let left = Run { raw: Vec::new(), stage: Stage::Spawning, ..r };
    (plan, left)
}

impl Dispatcher {
    /// What holds of a dispatcher at all times.
    pub closed spec fn well_formed(self) -> bool {
        self.gate_of.well_formed() && model::coherent(self@) && laws::exclusive(self@)
    }

    /// A dispatcher is coherent, and handles no event of an agent twice at a
    /// time. So what is stated of coherent and exclusive models holds of it.
    pub proof fn lemma_well_formed(self)
        requires
            self.well_formed(),
        ensures
            model::coherent(self@),
            laws::exclusive(self@),
    {
    }

    /// A dispatcher without runs.
    pub fn new(slow_handler_warn_secs: u64, max_event_bytes: usize) -> (d: Dispatcher)
        ensures
            d.well_formed(),
            d@ == (model::DispatcherModel {
                slow: slow_handler_warn_secs * 1_000_000_000,
                max_event_bytes: max_event_bytes as int,
                gate_of: Map::empty(),
                gates: Seq::empty(),
                runs: Seq::empty(),
                queue: Seq::empty(),
            }),
    {
        let d = Dispatcher {
            slow: slow_handler_warn_secs as u128 * 1_000_000_000,
            max_event_bytes,
            gate_of: AgentMap::new(),
            gates: Vec::new(),
            runs: Vec::new(),
            queue: Vec::new(),
        };
        assert(d@.gate_of =~= Map::<Seq<char>, int>::empty());
        assert(d@.gates =~= Seq::<int>::empty());
        assert(d@.runs =~= Seq::<Option<model::RunModel>>::empty());
        assert(d@.queue =~= Seq::<int>::empty());
        d
    }

    /// How many slots of a gate are taken.
    fn held(&self, gate: usize) -> (r: usize)
        ensures
            r == model::held(self@.runs, gate as int),
    {
        let mut n: usize = 0;
        assert(self@.runs.take(0) =~= seq![]);
        for i in 0..self.runs.len()
            invariant
                n <= i,
                n == model::held(self@.runs.take(i as int), gate as int),
        {
            assert(self@.runs.take(i + 1).drop_last() =~= self@.runs.take(i as int));
            assert(self@.runs[i as int] == run_model(self.runs@[i as int]));
            match &self.runs[i] {
                Some(r) => {
                    if r.gate == gate && r.stage != Stage::Waiting {
                        n = n + 1;
                    }
                },
                None => {},
            }
        }
        assert(self@.runs.take(self.runs@.len() as int) =~= self@.runs);
        n
    }

    /// Whether an agent or a run refers to a gate.
    fn gate_in_use(&self, gate: usize) -> (r: bool)
        requires
            self.gate_of.well_formed(),
        ensures
            r == model::gate_in_use(self@, gate as int),
    {
        let values = self.gate_of.values();
        for i in 0..values.len()
            invariant
                self.gate_of.well_formed(),
                forall|id: Seq<char>|
                    #[trigger] self.gate_of@.dom().contains(id) ==> exists|j: int|
                        0 <= j < values@.len() && #[trigger] values@[j] == self.gate_of@[id],
                forall|j: int|
                    0 <= j < values@.len() ==> crate::agent_map::is_value(
                        self.gate_of@,
                        #[trigger] values@[j],
                    ),
                forall|j: int| 0 <= j < i ==> #[trigger] values@[j] != gate,
        {
            if values[i] == gate {
                proof {
                    assert(crate::agent_map::is_value(self.gate_of@, values@[i as int]));
                    let a = choose|id: Seq<char>| #[trigger]
                        self.gate_of@.dom().contains(id) && self.gate_of@[id] == values@[i as int];
                    assert(self@.gate_of.dom().contains(a) && self@.gate_of[a] == gate);
                }
                return true;
            }
        }
        assert forall|a: Seq<char>| #[trigger]
            self@.gate_of.dom().contains(a) implies self@.gate_of[a] != gate by {
            assert(self.gate_of@.dom().contains(a));
        }
        for i in 0..self.runs.len()
            invariant
                forall|a: Seq<char>| #[trigger]
                    self@.gate_of.dom().contains(a) ==> self@.gate_of[a] != gate,
                forall|j: int|
                    0 <= j < i ==> !model::run_at_gate(#[trigger] self@.runs[j], gate as int),
        {
            assert(self@.runs[i as int] == run_model(self.runs@[i as int]));
            if let Some(r) = &self.runs[i] {
                if r.gate == gate {
                    assert(model::run_at_gate(self@.runs[i as int], gate as int));
                    return true;
                }
            }
        }
        false
    }

    /// An agent's gate, a new one where it has none.
    fn ensure_gate(&mut self, agent: &AgentId, slots: usize) -> (gate: usize)
        requires
            old(self).gate_of.well_formed(),
        ensures
            final(self).gate_of.well_formed(),
            final(self)@ == model::with_gate(old(self)@, agent@, slots as int),
            gate == final(self)@.gate_of[agent@],
    {
        if let Some(g) = self.gate_of.get(agent) {
            assert(self@.gate_of[agent@] == self.gate_of@[agent@]);
            return *g;
        }
        let mut g: usize = 0;
        while g < self.gates.len() && self.gate_in_use(g)
            invariant
                self.gate_of.well_formed(),
                *self == *old(self),
                g <= self.gates@.len(),
                model::fresh_gate(self@, 0) == model::fresh_gate(self@, g as int),
            decreases self.gates.len() - g,
        {
            g = g + 1;
        }
        let ghost gates = self.gates@;
        if g < self.gates.len() {
            self.gates.set(g, slots);
            assert(ints(self.gates@) =~= ints(gates).update(g as int, slots as int));
        } else {
            self.gates.push(slots);
            assert(ints(self.gates@) =~= ints(gates).push(slots as int));
        }
        let ghost had = self.gate_of@;
        self.gate_of.put(agent, g);
        assert(gates_model(self.gate_of@) =~= gates_model(had).insert(agent@, g as int));
        g
    }

    /// How many more deliveries of an agent can be handled right now; the
    /// relay fetches no more than that. None where the agent is not registered
    /// or is disabled.
    pub fn available(&mut self, registry: &Registry, agent: &AgentId) -> (n: usize)
        requires
            old(self).well_formed(),
            registry.well_formed(),
        ensures
            final(self).well_formed(),
            (final(self)@, n as int) == model::available_of(old(self)@, registry@, agent@),
    {
        match registry.get(agent) {
            Some(config) => {
                if config.enabled {
                    proof {
                        proofs::lemma_with_gate(
                            self@,
                            agent@,
                            config.max_concurrency as int,
                        );
                        laws::lemma_available_exclusive(self@, registry@, agent@);
                    }
                    let gate = self.ensure_gate(agent, config.max_concurrency as usize);
                    let taken: usize = self.held(gate);
                    assert(self@.gates[gate as int] == self.gates@[gate as int]);
                    self.gates[gate] - taken
                } else {
                    0
                }
            },
            None => 0,
        }
    }

    /// Takes note of changes of the registry: the gates of the agents concerned
    /// are dropped, and made anew with the new concurrency when next needed.
    /// Runs are never interrupted; they end on the slots they hold, and their
    /// events count as being handled until then.
    pub fn apply_changes(&mut self, changes: &Vec<Change>)
        requires
            old(self).well_formed(),
        ensures
            final(self).well_formed(),
            final(self)@ == model::without_gates(
                old(self)@,
                changed_agents(registry::changes_view(changes@)),
            ),
            forall|a: Seq<char>|
                #[trigger] model::in_flight_of(final(self)@, a) == model::in_flight_of(
                    old(self)@,
                    a,
                ),
            forall|a: Seq<char>, e: Seq<char>|
                #[trigger] model::is_in_flight(final(self)@, a, e) == model::is_in_flight(
                    old(self)@,
                    a,
                    e,
                ),
    {
        let ghost all = registry::changes_view(changes@);
        let ghost start = self@;
        assert(start.gate_of.remove_keys(changed_agents(all.take(0))) =~= start.gate_of);
        for i in 0..changes.len()
            invariant
                self.gate_of.well_formed(),
                all == registry::changes_view(changes@),
                self@ == model::without_gates(start, changed_agents(all.take(i as int))),
        {
            let ghost had = self.gate_of@;
            let id = changes[i].agent_id();
            self.gate_of.remove(&id);
            proof {
                assert(all[i as int] == changes@[i as int]@);
                assert(gates_model(self.gate_of@) =~= gates_model(had).remove(id@));
                assert forall|a: Seq<char>| changed_agents(all.take(i + 1)).contains(a) == (a == id@
                    || changed_agents(all.take(i as int)).contains(a)) by {
                    let s = all.take(i as int);
                    let t = all.take(i + 1);
                    if registry::diff::mentions(t, a) {
                        let k = choose|k: int| 0 <= k < t.len() && (#[trigger] t[k]).agent() == a;
                        if k < i {
                            assert(s[k].agent() == a);
                        }
                    }
                    if registry::diff::mentions(s, a) {
                        let k = choose|k: int| 0 <= k < s.len() && (#[trigger] s[k]).agent() == a;
                        assert(t[k].agent() == a);
                    }
                    assert(t[i as int].agent() == id@);
                }
                assert(self@.gate_of =~= start.gate_of.remove_keys(
                    changed_agents(all.take(i + 1)),
                ));
            }
        }
        proof {
            assert(all.take(changes@.len() as int) =~= all);
            proofs::lemma_without_gates(start, changed_agents(all));
        }
    }

    /// How many events of an agent are being handled.
    pub fn in_flight(&self, agent: &AgentId) -> (n: usize)
        requires
            self.well_formed(),
        ensures
            n == model::in_flight_of(self@, agent@),
    {
        let mut n: usize = 0;
        assert(self@.runs.take(0) =~= seq![]);
        for i in 0..self.runs.len()
            invariant
                n <= i,
                n == model::handled(self@.runs.take(i as int), agent@),
        {
            assert(self@.runs.take(i + 1).drop_last() =~= self@.runs.take(i as int));
            assert(self@.runs[i as int] == run_model(self.runs@[i as int]));
            if let Some(r) = &self.runs[i] {
                if is_active(r.stage) && r.agent.same(agent) {
                    n = n + 1;
                }
            }
        }
        assert(self@.runs.take(self.runs@.len() as int) =~= self@.runs);
        n
    }

    /// Whether an event of an agent is being handled.
    fn handling(&self, agent: &AgentId, event_id: &str) -> (r: bool)
        ensures
            r == model::is_in_flight(self@, agent@, event_id@),
    {
        for i in 0..self.runs.len()
            invariant
                forall|j: int|
                    0 <= j < i ==> !model::handles(#[trigger] self@.runs[j], agent@, event_id@),
        {
            assert(self@.runs[i as int] == run_model(self.runs@[i as int]));
            if let Some(r) = &self.runs[i] {
                if is_active(r.stage) && r.agent.same(agent) && same_text(
                    r.event_id.as_str(),
                    event_id,
                ) {
                    assert(model::handles(self@.runs[i as int], agent@, event_id@));
                    return true;
                }
            }
        }
        false
    }

    /// The stage of a run, if there is a run of this number.
    pub fn stage(&self, run: usize) -> (r: Option<Stage>)
        ensures
            r == model::stage_of(self@, run as int),
    {
        if run < self.runs.len() {
            assert(self@.runs[run as int] == run_model(self.runs@[run as int]));
            match &self.runs[run] {
                Some(r) => Some(r.stage),
                None => None,
            }
        } else {
            None
        }
    }

    /// What to log of an event that is too large, before anything is made of
    /// its bytes. Such a delivery is terminated.
    pub fn oversize(&self, size: usize) -> (r: Option<Record>)
        ensures
            match r {
                Some(record) => model::oversize(self@, size as int) == Some(record@),
                None => model::oversize(self@, size as int) is None,
            },
    {
        if size > self.max_event_bytes {
            let mut m = "event exceeds size limit (".to_owned();
            append_decimal(&mut m, size as u64);
            m.append(" > ");
            append_decimal(&mut m, self.max_event_bytes as u64);
            m.append(")");
            Some(events::invalid_event(m.as_str()))
        } else {
            None
        }
    }

    /// Why a delivery is refused for good, if it is; else the registration of
    /// its agent.
    fn screen(
        &self,
        registry: &Registry,
        delivery: &Delivery,
        decoded: Result<EventEnvelope, String>,
    ) -> (r: Result<(EventEnvelope, AgentConfig), Record>)
        requires
            registry.well_formed(),
        ensures
            match r {
                Ok((envelope, config)) => {
                    &&& model::rejection(self@, registry@, *delivery, decoded) is None
                    &&& decoded == Ok::<EventEnvelope, String>(envelope)
                    &&& config@ == registry@[delivery.agent@]
                    &&& registry::config_fault(config@) is None
                },
                Err(record) => model::rejection(self@, registry@, *delivery, decoded) == Some(
                    record@,
                ),
            },
    {
        if let Some(record) = self.oversize(delivery.raw.len()) {
            return Err(record);
        }
        let envelope = match EventEnvelope::parse(decoded) {
            Ok(envelope) => envelope,
            Err(e) => {
                return Err(events::invalid_event(e.to_string().as_str()));
            },
        };
        if !envelope.agent_id.same(&delivery.agent) {
            let mut m = "envelope agent_id ".to_owned();
            m.append(envelope.agent_id.as_str());
            m.append(" does not match consumer agent ");
            m.append(delivery.agent.as_str());
            return Err(events::invalid_event(m.as_str()));
        }
        match registry.get(&delivery.agent) {
            None => Err(
                agent_record(Level::Warn, "delivery for unregistered agent", &delivery.agent),
            ),
            Some(config) => {
                if config.enabled {
                    Ok((envelope, config))
                } else {
                    Err(agent_record(Level::Warn, "delivery for disabled agent", &delivery.agent))
                }
            },
        }
    }

    /// Gives a run a number.
    fn place(&mut self, run: Run) -> (i: usize)
        ensures
            final(self)@ == (model::DispatcherModel {
                runs: if i < old(self)@.runs.len() {
                    old(self)@.runs.update(i as int, Some(run.model()))
                } else {
                    old(self)@.runs.push(Some(run.model()))
                },
                ..old(self)@
            }),
            i == model::free_number(old(self)@.runs, 0),
            final(self).gate_of == old(self).gate_of,
    {
        let mut i: usize = 0;
        while i < self.runs.len() && self.runs[i].is_some()
            invariant
                *self == *old(self),
                i <= self.runs@.len(),
                model::free_number(self@.runs, 0) == model::free_number(self@.runs, i as int),
            decreases self.runs.len() - i,
        {
            assert(self@.runs[i as int] == run_model(self.runs@[i as int]));
            i = i + 1;
        }
        let ghost runs = self.runs@;
        if i < self.runs.len() {
            assert(self@.runs[i as int] == run_model(self.runs@[i as int]));
            self.runs.set(i, Some(run));
            assert(runs_model(self.runs@) =~= runs_model(runs).update(
                i as int,
                Some(run.model()),
            ));
        } else {
            self.runs.push(Some(run));
            assert(runs_model(self.runs@) =~= runs_model(runs).push(Some(run.model())));
        }
        i
    }

    /// Takes a delivery up, with what its bytes decode to. It is refused for
    /// good, with the record to log; then the caller terminates it. Or it
    /// starts a run, which takes a slot of its agent or waits for one.
    pub fn dispatch(
        &mut self,
        registry: &Registry,
        delivery: Delivery,
        decoded: Result<EventEnvelope, String>,
    ) -> (r: Result<Start, Record>)
        requires
            old(self).well_formed(),
            registry.well_formed(),
        ensures
            final(self).well_formed(),
            ({
                let (m, outcome) = model::dispatch_of(
                    old(self)@,
                    registry@,
                    delivery,
                    decoded,
                );
                &&& final(self)@ == m
                &&& match outcome {
                    Ok(start) => r matches Ok(s) && s@ == start,
                    Err(record) => r matches Err(l) && l@ == record,
                }
            }),
    {
        let (envelope, config) = match self.screen(registry, &delivery, decoded) {
            Ok(accepted) => accepted,
            Err(record) => {
                return Err(record);
            },
        };
        proof {
            proofs::lemma_joined(self@, delivery, envelope, config@);
            laws::lemma_dispatch_exclusive(self@, registry@, delivery, decoded);
            proofs::lemma_with_gate(self@, delivery.agent@, config.max_concurrency as int);
        }
        let consumer = consumer_name(&delivery.agent);
        let span = logging::dispatch_span(
            &delivery.agent,
            envelope.event_id.as_str(),
            consumer.as_str(),
            delivery.stream_sequence,
        );
        let log = one_line(Scope::Dispatch, events::event_received());
        let gate = self.ensure_gate(&delivery.agent, config.max_concurrency as usize);
        let taken: usize = self.held(gate);
        assert(self@.gates[gate as int] == self.gates@[gate as int]);
        let free = taken < self.gates[gate];
        let stage = if free {
            Stage::Looking
        } else {
            Stage::Waiting
        };
        let run = Run {
            agent: delivery.agent,
            event_id: envelope.event_id,
            event_type: envelope.event_type,
            raw: delivery.raw,
            stream_sequence: delivery.stream_sequence,
            consumer_sequence: delivery.consumer_sequence,
            delivery_count: delivery.delivery_count,
            handler: config.handler,
            working_directory: config.working_directory,
            gate,
            stage,
        };
        let number = self.place(run);
        let action = if free {
            Action::LookUp
        } else {
            let ghost queue = self.queue@;
            self.queue.push(number);
            assert(ints(self.queue@) =~= ints(queue).push(number as int));
            Action::Queue
        };
        Ok(Start { run: number, span, step: Step { log, action, woken: None } })
    }

    /// Takes a run out of its place.
    fn take(&mut self, run: usize) -> (r: Run)
        requires
            run < old(self)@.runs.len(),
            old(self)@.runs[run as int] is Some,
        ensures
            final(self)@ == (model::DispatcherModel {
                runs: old(self)@.runs.update(run as int, None),
                ..old(self)@
            }),
            old(self)@.runs[run as int] == Some(r.model()),
            final(self).gate_of == old(self).gate_of,
    {
        let ghost runs = self.runs@;
        assert(self@.runs[run as int] == run_model(runs[run as int]));
        let mut slot: Option<Run> = None;
        core::mem::swap(&mut self.runs[run], &mut slot);
        assert(runs_model(self.runs@) =~= runs_model(runs).update(run as int, None));
        slot.unwrap()
    }

    /// Puts a run into a place.
    fn put(&mut self, run: usize, r: Run)
        requires
            run < old(self)@.runs.len(),
        ensures
            final(self)@ == (model::DispatcherModel {
                runs: old(self)@.runs.update(run as int, Some(r.model())),
                ..old(self)@
            }),
            final(self).gate_of == old(self).gate_of,
    {
        let ghost runs = self.runs@;
        self.runs.set(run, Some(r));
        assert(runs_model(self.runs@) =~= runs_model(runs).update(run as int, Some(r.model())));
    }

    /// Brings a run to another stage.
    fn set_stage(&mut self, run: usize, stage: Stage)
        requires
            run < old(self)@.runs.len(),
            old(self)@.runs[run as int] is Some,
        ensures
            final(self)@ == model::at_stage(old(self)@, run as int, stage),
            final(self).gate_of == old(self).gate_of,
    {
        let r = self.take(run);
        let ghost runs = old(self)@.runs;
        let moved = Run { stage, ..r };
        self.put(run, moved);
        assert(runs.update(run as int, None).update(run as int, Some(moved.model())) =~= runs.update(
            run as int,
            Some(moved.model()),
        ));
    }

    /// Ends a run and hands its slot on.
    fn release(&mut self, run: usize) -> (woken: Option<usize>)
        requires
            run < old(self)@.runs.len(),
            old(self)@.runs[run as int] is Some,
            old(self)@.runs[run as int]->0.stage != Stage::Waiting,
            model::queue_ok(old(self)@),
        ensures
            (final(self)@, number_view(woken)) == model::released(old(self)@, run as int),
            final(self).gate_of == old(self).gate_of,
    {
        let ghost m = self@;
        let r = self.take(run);
        let gate: usize = r.gate;
        let ghost n = self@;
        assert(n == (model::DispatcherModel { runs: m.runs.update(run as int, None), ..m }));
        assert forall|l: int| 0 <= l < n.queue.len() implies 0 <= #[trigger] n.queue[l]
            < n.runs.len() && n.runs[n.queue[l]] is Some by {
            assert(m.queue[l] == n.queue[l]);
        }
        let mut k: usize = 0;
        while k < self.queue.len()
            invariant
                self@ == n,
                self.gate_of == old(self).gate_of,
                k <= self.queue@.len(),
                forall|l: int|
                    0 <= l < n.queue.len() ==> 0 <= #[trigger] n.queue[l] < n.runs.len()
                        && n.runs[n.queue[l]] is Some,
                model::next_in_line(n, gate as int, 0) == model::next_in_line(
                    n,
                    gate as int,
                    k as int,
                ),
            ensures
                self@ == n,
                self.gate_of == old(self).gate_of,
                k <= self.queue@.len(),
                k == model::next_in_line(n, gate as int, 0),
            decreases self.queue.len() - k,
        {
            assert(n.queue[k as int] == self.queue@[k as int]);
            let w: usize = self.queue[k];
            assert(n.runs[w as int] == run_model(self.runs@[w as int]));
            let due = match &self.runs[w] {
                Some(x) => x.gate == gate && x.stage == Stage::Waiting,
                None => false,
            };
            if due {
                break;
            }
            k = k + 1;
        }
        if k < self.queue.len() {
            let ghost queue = self.queue@;
            assert(n.queue[k as int] == self.queue@[k as int]);
            let w: usize = self.queue.remove(k);
            assert(ints(self.queue@) =~= ints(queue).remove(k as int));
            self.set_stage(w, Stage::Looking);
            Some(w)
        } else {
            None
        }
    }

    /// Lets a handler start, unless its event is being handled already.
    fn try_start(&mut self, run: usize) -> (plan: Option<SpawnPlan>)
        requires
            old(self).gate_of.well_formed(),
            run < old(self)@.runs.len(),
            old(self)@.runs[run as int] is Some,
        ensures
            final(self).gate_of.well_formed(),
            ({
                let r = old(self)@.runs[run as int]->0;
                if model::is_in_flight(old(self)@, r.agent, r.event_id) {
                    plan is None && final(self)@ == old(self)@
                } else {
                    &&& plan matches Some(p) && p@ == model::plan_of(r)
                    &&& final(self)@ == model::started(old(self)@, run as int)
                }
            }),
    {
        let ghost m = self@;
        assert(m.runs[run as int] == run_model(self.runs@[run as int]));
        let busy = match &self.runs[run] {
            Some(r) => self.handling(&r.agent, r.event_id.as_str()),
            None => false,
        };
        if busy {
            return None;
        }
        let r = self.take(run);
        let (plan, left) = take_plan(r);
        self.put(run, left);
        assert(self@.runs =~= m.runs.update(run as int, Some(left.model())));
        Some(plan)
    }

    fn after_lookup(&mut self, run: usize, found: Result<bool, AgentdError>) -> (step: Step)
        requires
            old(self).well_formed(),
            run < old(self)@.runs.len(),
            old(self)@.runs[run as int] is Some,
            old(self)@.runs[run as int]->0.stage == Stage::Looking,
        ensures
            final(self).gate_of.well_formed(),
            (final(self)@, step@) == model::found_to(old(self)@, run as int, found),
    {
        let ghost m = self@;
        let mut log = no_lines();
        match found {
            Ok(true) => {
                self.set_stage(run, Stage::Acking);
                return Step {
                    log: one_line(Scope::Dispatch, events::dedup_hit()),
                    action: Action::Ack,
                    woken: None,
                };
            },
            Ok(false) => {},
            Err(e) => {
                assert(m.runs[run as int] == run_model(self.runs@[run as int]));
                if let Some(r) = &self.runs[run] {
                    let message = glue(
                        "dedup lookup failed; dispatching anyway: ",
                        e.to_string().as_str(),
                    );
                    let record = agent_record(Level::Error, message.as_str(), &r.agent);
                    push_line(&mut log, line(Scope::Bare, record));
                }
                assert(lines_view(log@) =~= seq![
                    model::bare(
                        model::about(
                            Level::Error,
                            "dedup lookup failed; dispatching anyway: "@ + e.message(),
                            m.runs[run as int]->0.agent,
                        ),
                    ),
                ]);
            },
        }
        match self.try_start(run) {
            Some(plan) => Step { log, action: Action::Spawn(plan), woken: None },
            None => {
                push_line(&mut log, line(Scope::Dispatch, events::in_flight_duplicate_dropped()));
                let woken = self.release(run);
                Step { log, action: Action::Finish, woken }
            },
        }
    }

    fn after_spawn(&mut self, run: usize, outcome: Result<u32, String>) -> (step: Step)
        requires
            old(self).well_formed(),
            run < old(self)@.runs.len(),
            old(self)@.runs[run as int] is Some,
        ensures
            final(self).gate_of.well_formed(),
            (final(self)@, step@) == model::spawned_to(old(self)@, run as int, outcome),
    {
        let ghost m = self@;
        let r = self.take(run);
        match outcome {
            Ok(pid) => {
                let log = one_line(
                    Scope::Handler,
                    events::handler_spawned(r.handler.as_str(), pid),
                );
                let span = logging::handler_span(r.handler.as_str(), pid);
                let moved = Run { stage: Stage::Running, ..r };
                self.put(run, moved);
                assert(self@.runs =~= m.runs.update(run as int, Some(moved.model())));
                Step { log, action: Action::Supervise(span), woken: None }
            },
            Err(e) => {
                let log = one_line(
                    Scope::Dispatch,
                    events::handler_spawn_failed(r.handler.as_str(), e.as_str()),
                );
                let moved = Run { stage: Stage::Terming, ..r };
                self.put(run, moved);
                assert(self@.runs =~= m.runs.update(run as int, Some(moved.model())));
                Step { log, action: Action::Term, woken: None }
            },
        }
    }

    fn after_exit(&mut self, run: usize, exit: Exit, elapsed: u128) -> (step: Step)
        requires
            old(self).well_formed(),
            run < old(self)@.runs.len(),
            old(self)@.runs[run as int] is Some,
            plausible(exit),
        ensures
            final(self).gate_of.well_formed(),
            (final(self)@, step@) == model::exited_to(old(self)@, run as int, exit, elapsed),
    {
        let ghost m = self@;
        let r = self.take(run);
        let mut log = no_lines();
        let status = match exit {
            Exit::Status { code, signal } => exit_status_of(code, signal),
            Exit::WaitFailed(e) => {
                let message = glue("failed to wait for handler: ", e.as_str());
                let record = agent_record(Level::Error, message.as_str(), &r.agent);
                push_line(&mut log, line(Scope::Bare, record));
                assert(lines_view(log@) =~= seq![
                    model::bare(
                        model::about(
                            Level::Error,
                            "failed to wait for handler: "@ + e@,
                            r.agent@,
                        ),
                    ),
                ]);
                -1
            },
        };
        let duration_ms: u64 = ((elapsed / 1_000_000) % 0x1_0000_0000_0000_0000) as u64;
        push_line(&mut log, line(Scope::Handler, events::handler_exited(status, duration_ms)));
        if elapsed > self.slow {
            let record = with_three(
                Level::Warn,
                "handler exceeded the slow-handler warning threshold; not a timeout",
                text_field("agent_id", r.agent.as_str()),
                text_field("handler_path", r.handler.as_str()),
                unsigned_field("duration_ms", duration_ms),
            );
            push_line(&mut log, line(Scope::Bare, record));
        }
        let moved = Run { stage: Stage::Marking, ..r };
        self.put(run, moved);
        assert(self@.runs =~= m.runs.update(run as int, Some(moved.model())));
        Step { log, action: Action::Mark, woken: None }
    }

    fn after_mark(&mut self, run: usize, outcome: Result<(), AgentdError>) -> (step: Step)
        requires
            old(self).well_formed(),
            run < old(self)@.runs.len(),
            old(self)@.runs[run as int] is Some,
        ensures
            final(self).gate_of.well_formed(),
            (final(self)@, step@) == model::marked_to(old(self)@, run as int, outcome),
    {
        let ghost m = self@;
        let r = self.take(run);
        let mut log = no_lines();
        if let Err(e) = outcome {
            let message = glue("dedup mark failed; acking anyway: ", e.to_string().as_str());
            let record = agent_record(Level::Error, message.as_str(), &r.agent);
            push_line(&mut log, line(Scope::Bare, record));
            assert(lines_view(log@) =~= seq![
                model::bare(
                    model::about(
                        Level::Error,
                        "dedup mark failed; acking anyway: "@ + e.message(),
                        r.agent@,
                    ),
                ),
            ]);
        }
        let moved = Run { stage: Stage::Acking, ..r };
        self.put(run, moved);
        assert(self@.runs =~= m.runs.update(run as int, Some(moved.model())));
        Step { log, action: Action::Ack, woken: None }
    }

    /// Takes a report on a run and says what it leads to. A report that the
    /// run is not waiting for changes nothing and leads to nothing.
    pub fn advance(&mut self, run: usize, report: Report) -> (r: Option<Step>)
        requires
            old(self).well_formed(),
            report matches Report::Exited { exit, .. } ==> plausible(exit),
        ensures
            final(self).well_formed(),
            match model::advance_of(old(self)@, run as int, report) {
                Some((m, step)) => final(self)@ == m && (r matches Some(s) && s@ == step),
                None => r is None && final(self)@ == old(self)@,
            },
    {
        proof {
            if model::advance_of(self@, run as int, report) is Some {
                proofs::lemma_advance(self@, run as int, report);
                laws::lemma_advance_exclusive(self@, run as int, report);
            }
        }
        let stage = match self.stage(run) {
            Some(stage) => stage,
            None => {
                return None;
            },
        };
        match (stage, report) {
            (Stage::Looking, Report::Found(found)) => Some(self.after_lookup(run, found)),
            (Stage::Spawning, Report::Spawned(outcome)) => Some(self.after_spawn(run, outcome)),
            (Stage::Running, Report::Exited { exit, elapsed }) => Some(
                self.after_exit(run, exit, elapsed),
            ),
            (Stage::Marking, Report::Marked(outcome)) => Some(self.after_mark(run, outcome)),
            (Stage::Acking, Report::Acked(outcome)) => {
                let log = one_line(
                    Scope::Dispatch,
                    match &outcome {
                        Ok(_) => events::ack_success(),
                        Err(e) => events::ack_failure(e.as_str()),
                    },
                );
                let woken = self.release(run);
                Some(Step { log, action: Action::Finish, woken })
            },
            (Stage::Terming, Report::Termed) => {
                let woken = self.release(run);
                Some(Step { log: no_lines(), action: Action::Finish, woken })
            },
            _ => None,
        }
    }

    /// Asks the store whether the event of a run completed before, and takes
    /// its answer as the report. Nothing happens to a run that is not at that
    /// point.
    pub fn look_up<D: DedupCheck>(&mut self, run: usize, dedup: &D) -> (r: Option<Step>)
        requires
            old(self).well_formed(),
        ensures
            final(self).well_formed(),
            if model::stage_of(old(self)@, run as int) == Some(Stage::Looking) {
                let x = old(self)@.runs[run as int]->0;
                exists|found: Result<bool, AgentdError>|
                    #[trigger] dedup.answers(x.agent, x.event_id, found) && (r matches Some(s) && (
                        final(self)@,
                        s@,
                    ) == model::found_to(old(self)@, run as int, found))
            } else {
                r is None && final(self)@ == old(self)@
            },
    {
        if let Some(Stage::Looking) = self.stage(run) {
            assert(self@.runs[run as int] == run_model(self.runs@[run as int]));
            if let Some(x) = &self.runs[run] {
                let found = dedup.is_completed(&x.agent, x.event_id.as_str());
                assert(dedup.answers(x.agent@, x.event_id@, found));
                return self.advance(run, Report::Found(found));
            }
        }
        None
    }

    /// Has the store record that the event of a run completed, and takes its
    /// answer as the report. Nothing happens to a run that is not at that
    /// point.
    pub fn mark<D: DedupCheck>(&mut self, run: usize, dedup: &mut D) -> (r: Option<Step>)
        requires
            old(self).well_formed(),
        ensures
            final(self).well_formed(),
            if model::stage_of(old(self)@, run as int) == Some(Stage::Marking) {
                let x = old(self)@.runs[run as int]->0;
                exists|outcome: Result<(), AgentdError>|
                    #[trigger] old(dedup).records(x.agent, x.event_id, outcome, final(dedup)) && (
                    r matches Some(s) && (final(self)@, s@) == model::marked_to(
                        old(self)@,
                        run as int,
                        outcome,
                    ))
            } else {
                r is None && final(self)@ == old(self)@ && *final(dedup) == *old(dedup)
            },
    {
        if let Some(Stage::Marking) = self.stage(run) {
            assert(self@.runs[run as int] == run_model(self.runs@[run as int]));
            if let Some(x) = &self.runs[run] {
                let ghost agent = x.agent@;
                let ghost event = x.event_id@;
                let outcome = dedup.mark_completed(&x.agent, x.event_id.as_str());
                assert(old(dedup).records(agent, event, outcome, &*dedup));
                return self.advance(run, Report::Marked(outcome));
            }
        }
        None
    }
}

/// What to log where a handler's input could not be written. A handler that
/// ends without reading all of it is normal.
pub fn stdin_failure(broken_pipe: bool, cause: &str) -> (r: Option<Record>)
    ensures
        match r {
            Some(record) => !broken_pipe && record@ == logging::record_of(
                Level::Debug,
                "handler stdin write failed: "@ + cause@,
                seq![],
            ),
            None => broken_pipe,
        },
{
    if broken_pipe {
        None
    } else {
        Some(plain(Level::Debug, glue("handler stdin write failed: ", cause).as_str()))
    }
}

/// An end that a process can come to: no signal has the least of all numbers.
pub open spec fn plausible(exit: Exit) -> bool {
    exit matches Exit::Status { signal, .. } ==> signal != Some(i32::MIN)
}

/// The agents that changes are about.
pub open spec fn changed_agents(changes: Seq<registry::ChangeModel>) -> Set<Seq<char>> {
    Set::new(|a: Seq<char>| registry::diff::mentions(changes, a))
}

} // verus!
