//! Laws of the daemon's life: how it starts, what signals do, how it stops.

use vstd::prelude::*;

use crate::daemon;
use crate::daemon::{
    ConfigSource, Notice, Shutdown, Signal, SignalAction, Startup, StartupStep,
};
use crate::error::AgentdError;
use crate::logging::{FieldValueModel, Level, Record};
use crate::text;

verus! {

/// The configuration comes from the file that was asked for, whether it exists
/// or not; else from the usual one where it exists; else there is none, and the
/// operator is told where it was looked for.
pub proof fn lemma_config_source(
    explicit: Option<String>,
    path: String,
    present: bool,
    s: ConfigSource,
)
    requires
        call_ensures(daemon::config_source, (explicit, path, present), s),
    ensures
        s is Defaults <==> explicit is None && !present,
        explicit is Some ==> s is File && s->File_0@ == explicit->0@,
        explicit is None && present ==> s is File && s->File_0@ == path@,
        s matches ConfigSource::Defaults { note } ==> note@ == "agentd: no config at "@ + path@
            + "; using defaults"@,
{
}

/// The place of a stage in the startup.
pub open spec fn place(stage: Startup) -> int {
    match stage {
        Startup::Config => 0,
        Startup::Logging => 1,
        Startup::Store => 2,
        Startup::Registry => 3,
        Startup::Connect => 4,
        Startup::Consumers => 5,
        Startup::Socket => 6,
        Startup::Hangup => 7,
        Startup::Terminate => 8,
        Startup::Running => 9,
    }
}

/// A stage that succeeds leads to the next one, and none is left out. A stage
/// that fails ends the startup, except that of the consumers, which is logged.
/// A failure is told on the error output while there is no log, and in the log
/// from then on, as an error with its cause.
pub proof fn lemma_startup(stage: Startup, outcome: Result<(), String>, step: StartupStep)
    requires
        call_ensures(daemon::startup_step, (stage, outcome), step),
        stage != Startup::Running,
    ensures
        step is Proceed <==> outcome is Ok,
        step is Warn <==> outcome is Err && stage == Startup::Consumers,
        step is Abort <==> outcome is Err && stage != Startup::Consumers,
        step matches StartupStep::Proceed(next) ==> place(next) == place(stage) + 1,
        step matches StartupStep::Warn(next, r) ==> place(next) == place(stage) + 1 && r@.level
            == Level::Error && text::has_suffix(r@.message, outcome->Err_0@),
        step matches StartupStep::Abort(notice) ==> (notice is Stderr <==> place(stage) <= 1),
        step matches StartupStep::Abort(notice) ==> match notice {
            Notice::Stderr(m) => text::has_suffix(m@, outcome->Err_0@),
            Notice::Log(r) => r@.level == Level::Error && text::has_suffix(
                r@.message,
                outcome->Err_0@,
            ),
        },
{
    if outcome is Err {
        let e = outcome->Err_0@;
        let m = daemon::startup_message(stage) + e;
        assert(m.skip(m.len() - e.len()) =~= e);
    }
}

/// What is logged once everything is started: how many agents there are, and
/// where the control socket is.
pub proof fn lemma_running(agents: usize, socket: &str, r: Record)
    requires
        call_ensures(daemon::running, (agents, socket), r),
    ensures
        r@.level == Level::Info,
        r@.fields.len() == 2,
        r@.fields[0].value == FieldValueModel::Unsigned(agents as int),
        r@.fields[1].value == FieldValueModel::Text(socket@),
{
}

/// One signal reloads; the others stop the daemon.
pub proof fn lemma_signals(signal: Signal, a: SignalAction)
    requires
        call_ensures(daemon::on_signal, (signal,), a),
    ensures
        a is Reload <==> signal is Hangup,
        a matches SignalAction::Shutdown(r) ==> r@.level == Level::Info,
{
}

/// Stopping goes from fetching no more, over waiting for what runs and deleting
/// the socket, to the exit, in this order and with nothing left out.
pub proof fn lemma_shutdown(
    first: Shutdown,
    second: Shutdown,
    third: Shutdown,
    fourth: Shutdown,
    last: Shutdown,
)
    requires
        call_ensures(daemon::shutdown_first, (), first),
        call_ensures(daemon::shutdown_next, (first,), second),
        call_ensures(daemon::shutdown_next, (second,), third),
        call_ensures(daemon::shutdown_next, (third,), fourth),
        call_ensures(daemon::shutdown_next, (fourth,), last),
    ensures
        first is StopFetching,
        second is Drain,
        third is RemoveSocket,
        fourth is Exit,
        last is Exit,
{
}

/// A reload or a purge that fails is an error with its cause.
pub proof fn lemma_failures_are_told(e: AgentdError, reload: Record, purge: Record)
    requires
        call_ensures(daemon::reload_failed, (&e,), reload),
        call_ensures(daemon::purge_failed, (&e,), purge),
    ensures
        reload@.level == Level::Error,
        purge@.level == Level::Error,
        text::has_suffix(reload@.message, e.message()),
        text::has_suffix(purge@.message, e.message()),
{
    let m = e.message();
    let a = reload@.message;
    let b = purge@.message;
    assert(a.skip(a.len() - m.len()) =~= m);
    assert(b.skip(b.len() - m.len()) =~= m);
}

/// What is told of a stage that failed, in the log: what could not be done, and
/// why. No two stages are told of alike.
pub proof fn lemma_startup_told(stage: Startup, cause: String, step: StartupStep)
    requires
        call_ensures(daemon::startup_step, (stage, Err::<(), String>(cause)), step),
        2 <= place(stage) <= 8,
    ensures
        ({
            let said = match step {
                StartupStep::Warn(_, r) => r@.message,
                StartupStep::Abort(Notice::Log(r)) => r@.message,
                _ => Seq::empty(),
            };
            &&& stage == Startup::Store ==> said == "cannot open dedup store: "@ + cause@
            &&& stage == Startup::Registry ==> said == "cannot load agent registry: "@ + cause@
            &&& stage == Startup::Connect ==> said == "relay connection failed: "@ + cause@
            &&& stage == Startup::Consumers ==> said == "consumer sync failed: "@ + cause@
            &&& stage == Startup::Socket ==> said == "cannot bind control socket: "@ + cause@
            &&& stage == Startup::Hangup ==> said == "cannot install SIGHUP handler: "@ + cause@
            &&& stage == Startup::Terminate ==> said == "cannot install SIGTERM handler: "@ + cause@
        }),
{
}

/// A daemon that stops says what made it stop, and that it stopped.
pub proof fn lemma_stop_told(a: SignalAction, b: SignalAction, r: Record)
    requires
        call_ensures(daemon::on_signal, (Signal::Terminate,), a),
        call_ensures(daemon::on_signal, (Signal::Interrupt,), b),
        call_ensures(daemon::stopped, (), r),
    ensures
        a is Shutdown && a->Shutdown_0@.message == "SIGTERM: draining in-flight handlers"@,
        b is Shutdown && b->Shutdown_0@.message == "Ctrl-C: draining in-flight handlers"@,
        r@.level == Level::Info && r@.message == "agentd stopped"@ && r@.fields.len() == 0,
{
}

} // verus!
