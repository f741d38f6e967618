//! The life of the daemon: what it starts with, in which order, what stops it
//! from starting, and what signals do.

use vstd::prelude::*;
use vstd::string::*;

use crate::error::AgentdError;
use crate::logging;
use crate::logging::{plain, text_field, unsigned_field, with_two, Level, Record, RecordModel};
use crate::text::glue;

pub mod laws;

verus! {

// ---------------------------------------------------------------------------
// The configuration
// ---------------------------------------------------------------------------

/// Where the configuration comes from.
#[derive(Debug)]
pub enum ConfigSource {
    /// This file, which must be there.
    File(String),
    /// Nowhere: the defaults apply, and the operator is told so.
    Defaults { note: String },
}

/// A file that the operator names must be there; the default one may be
/// missing.
pub fn config_source(explicit: Option<String>, default_path: String, default_exists: bool) -> (s:
    ConfigSource)
    ensures
        match explicit {
            Some(path) => s == ConfigSource::File(path),
            None => if default_exists {
                s == ConfigSource::File(default_path)
            } else {
                s matches ConfigSource::Defaults { note } && note@ == "agentd: no config at "@
                    + default_path@ + "; using defaults"@
            },
        },
{
    match explicit {
        Some(path) => ConfigSource::File(path),
        None => {
            if default_exists {
                return ConfigSource::File(default_path);
            }
            let mut note = "agentd: no config at ".to_owned();
            note.append(default_path.as_str());
            note.append("; using defaults");
            ConfigSource::Defaults { note }
        },
    }
}

// ---------------------------------------------------------------------------
// Startup
// ---------------------------------------------------------------------------

/// What is being started.
#[derive(Debug, Clone, Copy, PartialEq, Eq, Structural)]
pub enum Startup {
    /// Reading the configuration.
    Config,
    /// Installing the log.
    Logging,
    /// Opening the store of completed events.
    Store,
    /// Loading the registry.
    Registry,
    /// Connecting to the relay.
    Connect,
    /// Binding the consumers.
    Consumers,
    /// Binding the control socket.
    Socket,
    /// Listening for the signal to reload.
    Hangup,
    /// Listening for the signal to stop.
    Terminate,
    /// Everything is started.
    Running,
}

/// Where the operator is told of a failure.
#[derive(Debug)]
pub enum Notice {
    /// On the error output, while there is no log.
    Stderr(String),
    /// In the log.
    Log(Record),
}

/// What follows from a stage of the startup.
#[derive(Debug)]
pub enum StartupStep {
    Proceed(Startup),
    /// Go on, with something to log.
    Warn(Startup, Record),
    /// Do not start.
    Abort(Notice),
}

/// The stage after a stage.
pub open spec fn stage_after(stage: Startup) -> Startup {
    match stage {
        Startup::Config => Startup::Logging,
        Startup::Logging => Startup::Store,
        Startup::Store => Startup::Registry,
        Startup::Registry => Startup::Connect,
        Startup::Connect => Startup::Consumers,
        Startup::Consumers => Startup::Socket,
        Startup::Socket => Startup::Hangup,
        Startup::Hangup => Startup::Terminate,
        Startup::Terminate => Startup::Running,
        Startup::Running => Startup::Running,
    }
}

/// What is said of a stage that failed.
pub open spec fn startup_message(stage: Startup) -> Seq<char> {
    match stage {
        Startup::Config => "agentd: "@,
        Startup::Logging => "agentd: "@,
        Startup::Store => "cannot open dedup store: "@,
        Startup::Registry => "cannot load agent registry: "@,
        Startup::Connect => "relay connection failed: "@,
        Startup::Consumers => "consumer sync failed: "@,
        Startup::Socket => "cannot bind control socket: "@,
        Startup::Hangup => "cannot install SIGHUP handler: "@,
        Startup::Terminate => "cannot install SIGTERM handler: "@,
        Startup::Running => ""@,
    }
}

/// What follows from a stage. A stage that fails stops the startup, except
/// that agents whose consumers cannot be bound do not stop the others.
pub open spec fn startup_step_of(
    stage: Startup,
    outcome: Result<(), String>,
    step: StartupStep,
) -> bool {
    match outcome {
        Ok(_) => step == StartupStep::Proceed(stage_after(stage)),
        Err(e) => {
            let m = startup_message(stage) + e@;
            match stage {
                Startup::Config | Startup::Logging => step matches StartupStep::Abort(
                    Notice::Stderr(s),
                ) && s@ == m,
                Startup::Consumers => step matches StartupStep::Warn(next, r) && next
                    == Startup::Socket && r@ == logging::record_of(Level::Error, m, seq![]),
                _ => step matches StartupStep::Abort(Notice::Log(r)) && r@ == logging::record_of(
                    Level::Error,
                    m,
                    seq![],
                ),
            }
        },
    }
}

/// What follows from a stage of the startup, given how it went.
pub fn startup_step(stage: Startup, outcome: Result<(), String>) -> (step: StartupStep)
    ensures
        startup_step_of(stage, outcome, step),
{
    let (next, what) = match stage {
        Startup::Config => (Startup::Logging, "agentd: "),
        Startup::Logging => (Startup::Store, "agentd: "),
        Startup::Store => (Startup::Registry, "cannot open dedup store: "),
        Startup::Registry => (Startup::Connect, "cannot load agent registry: "),
        Startup::Connect => (Startup::Consumers, "relay connection failed: "),
        Startup::Consumers => (Startup::Socket, "consumer sync failed: "),
        Startup::Socket => (Startup::Hangup, "cannot bind control socket: "),
        Startup::Hangup => (Startup::Terminate, "cannot install SIGHUP handler: "),
        Startup::Terminate => (Startup::Running, "cannot install SIGTERM handler: "),
        Startup::Running => (Startup::Running, ""),
    };
    match outcome {
        Ok(_) => StartupStep::Proceed(next),
        Err(e) => {
            let m = glue(what, e.as_str());
            match stage {
                Startup::Config | Startup::Logging => StartupStep::Abort(Notice::Stderr(m)),
                Startup::Consumers => StartupStep::Warn(next, plain(Level::Error, m.as_str())),
                _ => StartupStep::Abort(Notice::Log(plain(Level::Error, m.as_str()))),
            }
        },
    }
}

/// What is logged once everything is started.
pub fn running(agents: usize, control_socket: &str) -> (r: Record)
    ensures
        r@ == logging::record_of(
            Level::Info,
            "agentd running"@,
            seq![
                logging::unsigned_of("agents"@, agents as int),
                logging::text_of("control_socket"@, control_socket@),
            ],
        ),
{
    with_two(
        Level::Info,
        "agentd running",
        unsigned_field("agents", agents as u64),
        text_field("control_socket", control_socket),
    )
}

// ---------------------------------------------------------------------------
// Signals
// ---------------------------------------------------------------------------

/// A signal to the daemon.
#[derive(Debug, Clone, Copy, PartialEq, Eq, Structural)]
pub enum Signal {
    Hangup,
    Terminate,
    Interrupt,
}

/// What a signal asks for.
#[derive(Debug)]
pub enum SignalAction {
    /// Reload the registry.
    Reload,
    /// Stop, with what to log first.
    Shutdown(Record),
}

/// What a signal asks for.
pub fn on_signal(signal: Signal) -> (a: SignalAction)
    ensures
        match signal {
            Signal::Hangup => a is Reload,
            Signal::Terminate => a matches SignalAction::Shutdown(r) && r@ == logging::record_of(
                Level::Info,
                "SIGTERM: draining in-flight handlers"@,
                seq![],
            ),
            Signal::Interrupt => a matches SignalAction::Shutdown(r) && r@ == logging::record_of(
                Level::Info,
                "Ctrl-C: draining in-flight handlers"@,
                seq![],
            ),
        },
{
    match signal {
        Signal::Hangup => SignalAction::Reload,
        Signal::Terminate => SignalAction::Shutdown(
            plain(Level::Info, "SIGTERM: draining in-flight handlers"),
        ),
        Signal::Interrupt => SignalAction::Shutdown(
            plain(Level::Info, "Ctrl-C: draining in-flight handlers"),
        ),
    }
}

/// What is logged of a reload that failed.
pub open spec fn reload_failed_of(e: AgentdError) -> RecordModel {
    logging::record_of(
        Level::Error,
        "reload failed; keeping previous registry: "@ + e.message(),
        seq![],
    )
}

/// What to log of a reload that failed. The registry stays as it was.
pub fn reload_failed(e: &AgentdError) -> (r: Record)
    ensures
        r@ == reload_failed_of(*e),
{
    plain(
        Level::Error,
        glue("reload failed; keeping previous registry: ", e.to_string().as_str()).as_str(),
    )
}

/// What to log where expired events could not be forgotten. They are the next
/// time.
pub fn purge_failed(e: &AgentdError) -> (r: Record)
    ensures
        r@ == logging::record_of(Level::Error, "dedup purge failed: "@ + e.message(), seq![]),
{
    plain(Level::Error, glue("dedup purge failed: ", e.to_string().as_str()).as_str())
}

/// What to do next to stop.
#[derive(Debug, Clone, Copy, PartialEq, Eq, Structural)]
pub enum Shutdown {
    /// Stop fetching messages.
    StopFetching,
    /// Wait for every run to end, handlers and acknowledgements included.
    /// Nothing is killed.
    Drain,
    /// Delete the control socket. How that goes does not matter.
    RemoveSocket,
    /// Log that the daemon stopped, and exit with success.
    Exit,
}

/// What to do first to stop.
pub fn shutdown_first() -> (s: Shutdown)
    ensures
        s == Shutdown::StopFetching,
{
    Shutdown::StopFetching
}

/// What to do after a step to stop.
pub fn shutdown_next(step: Shutdown) -> (s: Shutdown)
    ensures
        s == match step {
            Shutdown::StopFetching => Shutdown::Drain,
            Shutdown::Drain => Shutdown::RemoveSocket,
            Shutdown::RemoveSocket => Shutdown::Exit,
            Shutdown::Exit => Shutdown::Exit,
        },
{
    match step {
        Shutdown::StopFetching => Shutdown::Drain,
        Shutdown::Drain => Shutdown::RemoveSocket,
        Shutdown::RemoveSocket => Shutdown::Exit,
        Shutdown::Exit => Shutdown::Exit,
    }
}

/// What is logged last.
pub fn stopped() -> (r: Record)
    ensures
        r@ == logging::record_of(Level::Info, "agentd stopped"@, seq![]),
{
    plain(Level::Info, "agentd stopped")
}

// ---------------------------------------------------------------------------
// Laws
// ---------------------------------------------------------------------------

/// The daemon runs only where its configuration, its log, its store, its
/// registry, its connection, its socket and its signals are in order; agents
/// that cannot be bound are the only failure that it starts with.
pub proof fn lemma_starts_in_order(stage: Startup, outcome: Result<(), String>, step: StartupStep)
    requires
        startup_step_of(stage, outcome, step),
        stage != Startup::Running,
    ensures
        outcome is Ok ==> step == StartupStep::Proceed(stage_after(stage)),
        outcome is Err && stage != Startup::Consumers ==> step is Abort,
        outcome is Err && stage == Startup::Consumers ==> step is Warn,
{
}

} // verus!
