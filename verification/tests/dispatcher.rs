use agent_daemon::agent_id::AgentId;
use agent_daemon::dedup::DedupStore;
use agent_daemon::dispatcher::{
    exit_status_of, stdin_failure, Action, DedupCheck, Delivery, Dispatcher, Exit, Report, Scope,
    SpawnPlan, Stage, Step,
};
use agent_daemon::error::AgentdError;
use agent_daemon::event::EventEnvelope;
use agent_daemon::logging::FieldValue;
use agent_daemon::registry::{AgentConfig, Change, Registry};
use serde_json::Value;

const AGENT: &str = "t.agent";
const SECOND: u128 = 1_000_000_000;

/// A store whose reads and records can be made to fail.
struct FakeDedup {
    store: DedupStore,
    fail_read: bool,
    fail_mark: bool,
    marks: usize,
}

impl FakeDedup {
    fn new() -> Self {
        Self {
            store: DedupStore::open_in_memory().unwrap(),
            fail_read: false,
            fail_mark: false,
            marks: 0,
        }
    }
}

impl DedupCheck for FakeDedup {
    fn is_completed(&self, agent_id: &AgentId, event_id: &str) -> Result<bool, AgentdError> {
        if self.fail_read {
            return Err(AgentdError::DedupStore("injected read failure".into()));
        }
        self.store.is_completed(agent_id, event_id)
    }

    fn mark_completed(&mut self, agent_id: &AgentId, event_id: &str) -> Result<(), AgentdError> {
        if self.fail_mark {
            return Err(AgentdError::DedupStore("injected mark failure".into()));
        }
        self.marks += 1;
        self.store.mark_completed(agent_id, event_id)
    }
}

fn id(s: &str) -> AgentId {
    AgentId::parse(s).unwrap()
}

fn config(concurrency: u32) -> AgentConfig {
    AgentConfig {
        agent_id: id(AGENT),
        handler: "/opt/on-event".to_string(),
        max_concurrency: concurrency,
        working_directory: Some("/opt/workdir".to_string()),
        enabled: true,
    }
}

fn envelope(event_id: &str) -> Vec<u8> {
    format!(
        r#"{{"version":1,"event_id":"{event_id}","agent_id":"{AGENT}","type":"im.message","created_at":"2026-08-20T00:00:00Z","payload":{{"n":1}}}}"#
    )
    .into_bytes()
}

fn text(v: &Value, key: &str) -> Result<String, String> {
    v.get(key)
        .and_then(Value::as_str)
        .map(str::to_string)
        .ok_or_else(|| format!("missing field `{key}`"))
}

fn decode(bytes: &[u8]) -> Result<EventEnvelope, String> {
    let v: Value = serde_json::from_slice(bytes).map_err(|e| e.to_string())?;
    Ok(EventEnvelope {
        version: v.get("version").and_then(Value::as_u64).ok_or("version")? as u32,
        event_id: text(&v, "event_id")?,
        agent_id: AgentId::parse(&text(&v, "agent_id")?).map_err(|e| e.to_string())?,
        event_type: text(&v, "type")?,
        created_at: text(&v, "created_at")?,
        payload: v.get("payload").cloned().ok_or("payload")?,
        metadata: None,
    })
}

/// Plays the caller of the dispatcher: starts no real handler, and counts what
/// is asked of the relay.
struct Sim {
    registry: Registry,
    dedup: FakeDedup,
    dispatcher: Dispatcher,
    acks: usize,
    terms: usize,
    log: Vec<String>,
    plans: Vec<SpawnPlan>,
    woken: Vec<usize>,
}

impl Sim {
    fn new(concurrency: u32) -> Self {
        Self::with_dedup(concurrency, FakeDedup::new())
    }

    fn with_dedup(concurrency: u32, dedup: FakeDedup) -> Self {
        let mut registry = Registry::empty("/agents.d");
        registry.register(&config(concurrency), Ok(())).unwrap();
        Self {
            registry,
            dedup,
            dispatcher: Dispatcher::new(3600, 256 * 1024),
            acks: 0,
            terms: 0,
            log: vec![],
            plans: vec![],
            woken: vec![],
        }
    }

    fn delivery(&self, event_id: &str) -> Delivery {
        Delivery {
            agent: id(AGENT),
            raw: envelope(event_id),
            stream_sequence: 7,
            consumer_sequence: 3,
            delivery_count: 1,
        }
    }

    /// Takes note of a step and gives its action.
    fn note(&mut self, step: Step) -> Action {
        for l in step.log {
            self.log.push(format!("{:?} {}", l.scope, l.record.message));
        }
        if let Some(run) = step.woken {
            self.woken.push(run);
        }
        step.action
    }

    /// Takes a delivery up; the run's number where it is accepted.
    fn start(&mut self, delivery: Delivery) -> Option<(usize, Action)> {
        if let Some(record) = self.dispatcher.oversize(delivery.raw.len()) {
            self.log.push(format!("Bare {}", record.message));
            self.terms += 1;
            return None;
        }
        let decoded = decode(&delivery.raw);
        match self.dispatcher.dispatch(&self.registry, delivery, decoded) {
            Ok(start) => {
                let action = self.note(start.step);
                Some((start.run, action))
            }
            Err(record) => {
                self.log.push(format!("Bare {}", record.message));
                self.terms += 1;
                None
            }
        }
    }

    fn report(&mut self, run: usize, report: Report) -> Action {
        let step = self.dispatcher.advance(run, report).unwrap();
        self.note(step)
    }

    fn look_up(&mut self, run: usize) -> Action {
        let step = self.dispatcher.look_up(run, &self.dedup).unwrap();
        self.note(step)
    }

    /// Carries a run on from an action to its end, with handlers that exit
    /// with the code.
    fn finish(&mut self, run: usize, action: Action, code: i32) {
        let mut action = action;
        loop {
            action = match action {
                Action::Queue => return,
                Action::LookUp => self.look_up(run),
                Action::Spawn(plan) => {
                    self.plans.push(plan);
                    self.report(run, Report::Spawned(Ok(100)))
                }
                Action::Supervise(_) => {
                    let exit = Exit::Status {
                        code: Some(code),
                        signal: None,
                    };
                    self.report(run, Report::Exited { exit, elapsed: SECOND })
                }
                Action::Mark => {
                    let step = self.dispatcher.mark(run, &mut self.dedup).unwrap();
                    self.note(step)
                }
                Action::Ack => {
                    self.acks += 1;
                    self.report(run, Report::Acked(Ok(())))
                }
                Action::Term => {
                    self.terms += 1;
                    self.report(run, Report::Termed)
                }
                Action::Finish => return,
            };
        }
    }

    fn dispatch(&mut self, delivery: Delivery, code: i32) {
        if let Some((run, action)) = self.start(delivery) {
            self.finish(run, action, code);
        }
    }

    fn has_logged(&self, line: &str) -> bool {
        self.log.iter().any(|l| l == line)
    }
}

#[test]
fn stdin_receives_exact_original_bytes() {
    let mut f = Sim::new(1);
    let raw = envelope("e-stdin");
    let mut d = f.delivery("e-stdin");
    d.raw = raw.clone();
    f.dispatch(d, 0);

    assert_eq!(f.acks, 1);
    assert_eq!(f.terms, 0);
    assert_eq!(
        f.plans[0].stdin, raw,
        "handler stdin must be the original bytes"
    );
}

#[test]
fn env_vars_exposed_to_handler() {
    let mut f = Sim::new(1);
    let d = f.delivery("e-env");
    f.dispatch(d, 0);

    let env: Vec<String> = f.plans[0]
        .env
        .iter()
        .map(|v| format!("{}={}", v.name, v.value))
        .collect();
    assert_eq!(
        env,
        [
            "AGENTD_AGENT_ID=t.agent",
            "AGENTD_EVENT_ID=e-env",
            "AGENTD_EVENT_TYPE=im.message",
            "AGENTD_STREAM_SEQUENCE=7",
            "AGENTD_CONSUMER_SEQUENCE=3",
            "AGENTD_DELIVERY_COUNT=1",
        ]
    );
    assert_eq!(f.plans[0].program, "/opt/on-event");
    assert_eq!(f.plans[0].working_directory.as_deref(), Some("/opt/workdir"));
}

#[test]
fn nonzero_exit_acks_once_no_retry() {
    let mut f = Sim::new(1);
    let d = f.delivery("e-exit1");
    f.dispatch(d, 1);

    assert_eq!(f.acks, 1, "exit 1 still acks");
    assert_eq!(f.terms, 0);
    assert_eq!(f.plans.len(), 1, "handler must run exactly once");
}

#[test]
fn dispatcher_spawn_failure_is_terminal() {
    let mut f = Sim::new(1);
    let d = f.delivery("e-spawn");
    let (run, _) = f.start(d).unwrap();
    let action = f.look_up(run);
    assert!(matches!(action, Action::Spawn(_)));
    assert_eq!(f.dispatcher.in_flight(&id(AGENT)), 1);
    let action = f.report(run, Report::Spawned(Err("no such file".to_string())));
    assert_eq!(f.dispatcher.in_flight(&id(AGENT)), 0);
    f.finish(run, action, 0);

    assert_eq!(f.terms, 1, "spawn failure terminates");
    assert_eq!(f.acks, 0);
    assert!(f.has_logged("Dispatch handler spawn failed"));
}

#[test]
fn dispatcher_invalid_envelope_is_terminal() {
    let mut f = Sim::new(1);
    // Unparseable JSON.
    let mut bad = f.delivery("x");
    bad.raw = b"{not json".to_vec();
    f.dispatch(bad, 0);
    // Unsupported version.
    let mut v2 = f.delivery("x");
    v2.raw = String::from_utf8(envelope("e-v2"))
        .unwrap()
        .replace("\"version\":1", "\"version\":2")
        .into_bytes();
    f.dispatch(v2, 0);
    // Envelope agent_id mismatching the consumer's agent.
    let mut wrong = f.delivery("x");
    wrong.raw = String::from_utf8(envelope("e-x"))
        .unwrap()
        .replace("\"agent_id\":\"t.agent\"", "\"agent_id\":\"other.agent\"")
        .into_bytes();
    f.dispatch(wrong, 0);

    assert_eq!(f.terms, 3, "all invalid forms terminate");
    assert_eq!(f.acks, 0);
    assert!(f.plans.is_empty(), "handler must never run");
}

#[test]
fn refusals_say_why() {
    let mut f = Sim::new(1);
    let reason = |r: agent_daemon::logging::Record| match &r.fields[0].value {
        FieldValue::Text(s) => format!("{}: {s}", r.message),
        other => panic!("unexpected {other:?}"),
    };
    let d = f.delivery("e");
    let e = f
        .dispatcher
        .dispatch(&f.registry, d, Err("broken".to_string()))
        .unwrap_err();
    assert_eq!(
        reason(e),
        "invalid event: invalid event envelope: unparseable JSON: broken"
    );
    let d = f.delivery("e");
    let mut other = decode(&d.raw).unwrap();
    other.agent_id = id("other.agent");
    let e = f.dispatcher.dispatch(&f.registry, d, Ok(other)).unwrap_err();
    assert_eq!(
        reason(e),
        "invalid event: envelope agent_id other.agent does not match consumer agent t.agent"
    );
    let small = Dispatcher::new(1, 64);
    assert_eq!(
        reason(small.oversize(65).unwrap()),
        "invalid event: event exceeds size limit (65 > 64)"
    );
    assert!(small.oversize(64).is_none());
}

#[test]
fn dispatcher_oversize_event_is_terminal() {
    let mut f = Sim::new(1);
    f.dispatcher = Dispatcher::new(3600, 64);
    let d = f.delivery("e-big");
    f.dispatch(d, 0);
    assert_eq!(f.terms, 1, "oversize terminates");
    // The size counts even where the bytes were decoded all the same.
    let d = f.delivery("e-big");
    let decoded = decode(&d.raw);
    assert!(f.dispatcher.dispatch(&f.registry, d, decoded).is_err());
}

#[test]
fn dedup_hit_skips_handler_and_acks() {
    let mut dedup = FakeDedup::new();
    DedupCheck::mark_completed(&mut dedup, &id(AGENT), "e-dup").unwrap();
    let baseline = dedup.marks;
    let mut f = Sim::with_dedup(1, dedup);

    let d = f.delivery("e-dup");
    f.dispatch(d, 0);

    assert_eq!(f.acks, 1, "redelivery of completed event acks directly");
    assert_eq!(f.terms, 0);
    assert!(f.plans.is_empty(), "handler must be skipped on dedup hit");
    assert_eq!(f.dedup.marks, baseline, "no re-mark on dedup hit");
    assert!(f.has_logged("Dispatch dedup hit"));
}

#[test]
fn in_flight_duplicate_dropped_without_ack() {
    let mut f = Sim::new(4);
    let d = f.delivery("e-dup-inflight");
    let (a, _) = f.start(d).unwrap();
    let spawn = f.look_up(a);
    // The second copy arrives while the first's handler is still running.
    let d = f.delivery("e-dup-inflight");
    let (b, action) = f.start(d).unwrap();
    f.finish(b, action, 0);
    assert_eq!(f.acks, 0);
    assert!(f.has_logged("Dispatch in-flight duplicate dropped"));
    assert_eq!(f.dispatcher.in_flight(&id(AGENT)), 1);
    f.finish(a, spawn, 0);

    assert_eq!(f.acks, 1, "exactly one copy completes and acks");
    assert_eq!(f.terms, 0);
    assert_eq!(f.plans.len(), 1, "handler runs exactly once");
    assert_eq!(f.dispatcher.in_flight(&id(AGENT)), 0);
}

#[test]
fn serial_gate_never_overlaps() {
    let mut f = Sim::new(1);
    let mut runs = vec![];
    for i in 0..3 {
        let d = f.delivery(&format!("e-ser-{i}"));
        runs.push(f.start(d).unwrap());
    }
    assert!(matches!(runs[0].1, Action::LookUp));
    assert!(matches!(runs[1].1, Action::Queue));
    assert!(matches!(runs[2].1, Action::Queue));
    assert_eq!(f.dispatcher.available(&f.registry, &id(AGENT)), 0);
    // A waiting run has nothing to report.
    assert!(f.dispatcher.look_up(runs[1].0, &f.dedup).is_none());
    let mut done = vec![];
    f.finish(runs[0].0, Action::LookUp, 0);
    done.push(runs[0].0);
    while let Some(run) = f.woken.pop() {
        assert_eq!(f.dispatcher.stage(run), Some(Stage::Looking));
        f.finish(run, Action::LookUp, 0);
        done.push(run);
    }
    assert_eq!(
        done,
        vec![runs[0].0, runs[1].0, runs[2].0],
        "runs have their turns in the order in which they came"
    );
    assert_eq!(f.acks, 3);
    assert_eq!(f.dispatcher.available(&f.registry, &id(AGENT)), 1);
}

#[test]
fn parallel_gate_runs_concurrently() {
    let mut f = Sim::new(3);
    let mut spawns = vec![];
    for i in 0..3 {
        let d = f.delivery(&format!("e-par-{i}"));
        let (run, action) = f.start(d).unwrap();
        assert!(matches!(action, Action::LookUp));
        spawns.push((run, f.look_up(run)));
    }
    assert_eq!(f.dispatcher.in_flight(&id(AGENT)), 3);
    assert_eq!(f.dispatcher.available(&f.registry, &id(AGENT)), 0);
    for (run, action) in spawns {
        f.finish(run, action, 0);
    }
    assert_eq!(f.acks, 3);
}

#[test]
fn epipe_from_early_exit_is_normal() {
    // The handler exits without reading an input well over a pipe's buffer.
    let mut f = Sim::new(1);
    let padding = "x".repeat(128 * 1024);
    let raw = format!(
        r#"{{"version":1,"event_id":"e-epipe","agent_id":"{AGENT}","type":"im.message","created_at":"t","payload":{{"blob":"{padding}"}}}}"#
    )
    .into_bytes();
    let mut d = f.delivery("e-epipe");
    d.raw = raw.clone();
    let (run, _) = f.start(d).unwrap();
    let Action::Spawn(plan) = f.look_up(run) else {
        panic!("the handler is started");
    };
    assert_eq!(plan.stdin, raw);
    let action = f.report(run, Report::Spawned(Ok(100)));
    // The write fails, which is nothing to log, and the dispatch goes on.
    assert!(stdin_failure(true, "Broken pipe (os error 32)").is_none());
    f.finish(run, action, 0);
    assert_eq!(f.acks, 1, "EPIPE must not fail dispatch");
    assert_eq!(f.terms, 0);
}

#[test]
fn other_failures_to_feed_a_handler_are_logged() {
    assert!(stdin_failure(true, "Broken pipe").is_none());
    assert_eq!(
        stdin_failure(false, "why").unwrap().message,
        "handler stdin write failed: why"
    );
}

#[test]
fn fail_open_dispatches_when_dedup_read_fails() {
    let mut dedup = FakeDedup::new();
    dedup.fail_read = true;
    let mut f = Sim::with_dedup(1, dedup);

    let d = f.delivery("e-fo-r");
    f.dispatch(d, 0);

    assert_eq!(f.acks, 1, "fail-open: dispatch anyway, still ack");
    assert_eq!(f.plans.len(), 1, "handler must run despite the store error");
    assert!(f.has_logged(
        "Bare dedup lookup failed; dispatching anyway: dedup store error: injected read failure"
    ));
}

#[test]
fn fail_open_acks_when_dedup_mark_fails() {
    let mut dedup = FakeDedup::new();
    dedup.fail_mark = true;
    let mut f = Sim::with_dedup(1, dedup);

    let d = f.delivery("e-fo-m");
    f.dispatch(d, 0);

    assert_eq!(f.acks, 1, "handler ran; ack anyway");
    assert_eq!(f.dedup.marks, 0);
    assert!(f.has_logged(
        "Bare dedup mark failed; acking anyway: dedup store error: injected mark failure"
    ));
}

#[test]
fn unregistered_and_disabled_agents_term() {
    let mut f = Sim::new(1);
    // Unregistered agent id.
    f.dispatch(
        Delivery {
            agent: id("ghost.agent"),
            raw: envelope("e-ghost"),
            stream_sequence: 1,
            consumer_sequence: 1,
            delivery_count: 1,
        },
        0,
    );
    assert_eq!(f.terms, 1, "unregistered agent terminates");

    // Disabled agent.
    f.terms = 0;
    f.registry.set_enabled(&id(AGENT), false, Ok(())).unwrap();
    let d = f.delivery("e-disabled");
    f.dispatch(d, 0);
    assert_eq!(f.terms, 1, "disabled agent terminates");
    assert!(f.has_logged("Bare delivery for disabled agent"));
}

#[test]
fn deliveries_for_unknown_agents_are_logged() {
    let mut f = Sim::new(1);
    let raw = String::from_utf8(envelope("e-ghost"))
        .unwrap()
        .replace(AGENT, "ghost.agent");
    let d = Delivery {
        agent: id("ghost.agent"),
        raw: raw.into_bytes(),
        ..f.delivery("e-ghost")
    };
    f.dispatch(d, 0);
    assert_eq!(f.terms, 1);
    assert!(f.has_logged("Bare delivery for unregistered agent"));
}

#[test]
fn available_reports_free_slots() {
    let mut f = Sim::new(2);
    assert_eq!(f.dispatcher.available(&f.registry, &id(AGENT)), 2);
    assert_eq!(f.dispatcher.available(&f.registry, &id("ghost.agent")), 0);
    f.registry.set_enabled(&id(AGENT), false, Ok(())).unwrap();
    f.dispatcher.apply_changes(&vec![]);
    assert_eq!(
        f.dispatcher.available(&f.registry, &id(AGENT)),
        0,
        "disabled agents have no slots"
    );
}

#[test]
fn mark_completed_written_before_ack() {
    let mut f = Sim::new(1);
    let d = f.delivery("e-marked");
    f.dispatch(d, 0);
    assert_eq!(f.dedup.marks, 1);
    // And the second delivery of the same event dedups.
    let d = f.delivery("e-marked");
    f.dispatch(d, 0);
    assert_eq!(f.dedup.marks, 1, "second delivery hits dedup, no re-mark");
    assert_eq!(f.acks, 2);
}

#[test]
fn exit_status_encoding() {
    assert_eq!(exit_status_of(Some(0), None), 0);
    assert_eq!(exit_status_of(Some(3), None), 3);
    assert_eq!(exit_status_of(None, Some(9)), -9);
    assert_eq!(exit_status_of(None, None), -1);
}

#[test]
fn the_life_of_a_run_is_logged() {
    let mut f = Sim::new(1);
    let d = f.delivery("e");
    f.dispatch(d, 0);
    assert_eq!(
        f.log,
        vec![
            "Dispatch event received",
            "Handler handler spawned",
            "Handler handler exited",
            "Dispatch ack succeeded",
        ]
    );
}

#[test]
fn slow_handlers_are_warned_of() {
    let mut f = Sim::new(1);
    f.dispatcher = Dispatcher::new(2, 1000);
    for (i, elapsed, lines) in [(0, 2 * SECOND, 1), (1, 2 * SECOND + 1, 2)] {
        let d = f.delivery(&format!("e{i}"));
        let (run, _) = f.start(d).unwrap();
        f.look_up(run);
        f.report(run, Report::Spawned(Ok(1)));
        let exit = Exit::Status {
            code: None,
            signal: Some(15),
        };
        let step = f
            .dispatcher
            .advance(run, Report::Exited { exit, elapsed })
            .unwrap();
        assert_eq!(step.log.len(), lines);
        assert_eq!(step.log[0].scope, Scope::Handler);
        assert!(matches!(
            step.log[0].record.fields[0].value,
            FieldValue::Signed(-15)
        ));
        assert!(matches!(
            step.log[0].record.fields[1].value,
            FieldValue::Unsigned(2000)
        ));
        if lines == 2 {
            assert_eq!(
                step.log[1].record.message,
                "handler exceeded the slow-handler warning threshold; not a timeout"
            );
        }
        let action = f.note(step);
        f.finish(run, action, 0);
    }
}

#[test]
fn a_handler_that_cannot_be_waited_for_completes() {
    let mut f = Sim::new(1);
    let d = f.delivery("e");
    let (run, _) = f.start(d).unwrap();
    f.look_up(run);
    f.report(run, Report::Spawned(Ok(1)));
    let exit = Exit::WaitFailed("lost".to_string());
    let action = f.report(run, Report::Exited { exit, elapsed: 0 });
    assert!(f.has_logged("Bare failed to wait for handler: lost"));
    f.finish(run, action, 0);
    assert_eq!(f.acks, 1);
    assert_eq!(f.dedup.marks, 1);
}

#[test]
fn an_unconfirmed_ack_ends_the_run() {
    let mut f = Sim::new(1);
    let d = f.delivery("e");
    let (run, _) = f.start(d).unwrap();
    f.look_up(run);
    f.report(run, Report::Spawned(Ok(1)));
    let exit = Exit::Status {
        code: Some(0),
        signal: None,
    };
    f.report(run, Report::Exited { exit, elapsed: 0 });
    f.report(run, Report::Marked(Ok(())));
    let action = f.report(run, Report::Acked(Err("timeout".to_string())));
    assert!(matches!(action, Action::Finish));
    assert!(f.has_logged("Dispatch ack failed"));
    assert_eq!(f.dispatcher.stage(run), None);
}

#[test]
fn unexpected_reports_change_nothing() {
    let mut f = Sim::new(1);
    assert!(f.dispatcher.advance(0, Report::Termed).is_none());
    let d = f.delivery("e");
    let (run, _) = f.start(d).unwrap();
    assert!(f.dispatcher.advance(run, Report::Termed).is_none());
    assert!(f.dispatcher.advance(run, Report::Acked(Ok(()))).is_none());
    assert!(f.dispatcher.mark(run, &mut f.dedup).is_none());
    assert_eq!(f.dedup.marks, 0);
    assert_eq!(f.dispatcher.stage(run), Some(Stage::Looking));
}

#[test]
fn changes_renew_the_slots_and_interrupt_nothing() {
    let mut f = Sim::new(1);
    let d = f.delivery("first");
    let (run, _) = f.start(d).unwrap();
    let spawn = f.look_up(run);
    // The agent gets two slots while its handler runs.
    f.registry.update(&config(2), Ok(())).unwrap();
    f.dispatcher.apply_changes(&vec![Change::Updated(config(2))]);
    assert_eq!(f.dispatcher.stage(run), Some(Stage::Spawning));
    assert_eq!(f.dispatcher.available(&f.registry, &id(AGENT)), 2);
    f.finish(run, spawn, 0);
    assert_eq!(f.acks, 1);
    assert_eq!(f.dispatcher.available(&f.registry, &id(AGENT)), 2);
}

#[test]
fn waiting_runs_keep_their_places_over_changes() {
    let mut f = Sim::new(1);
    let d = f.delivery("a");
    let (a, _) = f.start(d).unwrap();
    let d = f.delivery("b");
    let (b, action) = f.start(d).unwrap();
    assert!(matches!(action, Action::Queue));
    f.dispatcher.apply_changes(&vec![Change::Removed(id(AGENT))]);
    // A new delivery finds a new gate.
    let d = f.delivery("c");
    let (c, action) = f.start(d).unwrap();
    assert!(matches!(action, Action::LookUp));
    f.finish(a, Action::LookUp, 0);
    assert_eq!(f.woken, vec![b]);
    f.finish(b, Action::LookUp, 0);
    f.finish(c, Action::LookUp, 0);
    assert_eq!(f.acks, 3);
}

#[test]
fn numbers_of_ended_runs_are_used_again() {
    let mut f = Sim::new(2);
    let d = f.delivery("a");
    let (a, _) = f.start(d).unwrap();
    let d = f.delivery("b");
    let (b, _) = f.start(d).unwrap();
    assert_ne!(a, b);
    f.finish(a, Action::LookUp, 0);
    let d = f.delivery("c");
    let (c, _) = f.start(d).unwrap();
    assert_eq!(a, c);
}

#[test]
fn agents_do_not_share_slots() {
    let mut f = Sim::new(1);
    let other = AgentConfig {
        agent_id: id("other"),
        ..config(1)
    };
    f.registry.register(&other, Ok(())).unwrap();
    let d = f.delivery("a");
    f.start(d).unwrap();
    assert_eq!(f.dispatcher.available(&f.registry, &id(AGENT)), 0);
    assert_eq!(f.dispatcher.available(&f.registry, &id("other")), 1);
    let raw = String::from_utf8(envelope("a")).unwrap().replace(AGENT, "other");
    let d = Delivery {
        agent: id("other"),
        raw: raw.into_bytes(),
        ..f.delivery("a")
    };
    let (run, action) = f.start(d).unwrap();
    assert!(matches!(action, Action::LookUp));
    // The same event id of another agent is another event.
    assert!(matches!(f.look_up(run), Action::Spawn(_)));
}

#[test]
fn a_copy_is_dropped_after_changes_too() {
    let mut f = Sim::new(1);
    let d = f.delivery("e1");
    let (first, _) = f.start(d).unwrap();
    let spawn = f.look_up(first);
    f.registry.update(&config(2), Ok(())).unwrap();
    f.dispatcher.apply_changes(&vec![Change::Updated(config(2))]);
    assert_eq!(f.dispatcher.in_flight(&id(AGENT)), 1);
    // The handler of the first copy is still running.
    let d = f.delivery("e1");
    let (second, action) = f.start(d).unwrap();
    f.finish(second, action, 0);
    assert_eq!((f.acks, f.terms, f.plans.len()), (0, 0, 0));
    assert!(f.has_logged("Dispatch in-flight duplicate dropped"));
    assert_eq!(f.dispatcher.in_flight(&id(AGENT)), 1);
    f.finish(first, spawn, 0);
    assert_eq!((f.acks, f.terms, f.plans.len()), (1, 0, 1));
    assert_eq!(f.dispatcher.in_flight(&id(AGENT)), 0);
    // Once it completed, a copy is acknowledged.
    let d = f.delivery("e1");
    f.dispatch(d, 0);
    assert_eq!((f.acks, f.terms, f.plans.len()), (2, 0, 1));
}

#[test]
fn a_run_of_an_old_gate_leaves_the_new_slots_alone() {
    let mut f = Sim::new(1);
    let d = f.delivery("a");
    let (a, _) = f.start(d).unwrap();
    // The change comes before the handler is started.
    f.registry.update(&config(3), Ok(())).unwrap();
    f.dispatcher.apply_changes(&vec![Change::Updated(config(3))]);
    f.look_up(a);
    assert_eq!(f.dispatcher.available(&f.registry, &id(AGENT)), 3);
}

#[test]
fn every_queued_run_ends() {
    let mut f = Sim::new(2);
    let mut first = vec![];
    for i in 0..7 {
        let d = f.delivery(&format!("e-{i}"));
        first.push(f.start(d).unwrap());
    }
    for (run, action) in first {
        f.finish(run, action, 0);
        assert!(f.dispatcher.in_flight(&id(AGENT)) <= 2);
    }
    while let Some(run) = f.woken.pop() {
        f.finish(run, Action::LookUp, 0);
    }
    assert_eq!((f.acks, f.plans.len()), (7, 7));
    assert_eq!(f.dispatcher.available(&f.registry, &id(AGENT)), 2);
}
