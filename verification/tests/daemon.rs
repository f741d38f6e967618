use agent_daemon::daemon::{
    config_source, on_signal, purge_failed, reload_failed, running, shutdown_first, shutdown_next,
    startup_step,
    stopped, ConfigSource, Notice, Shutdown, Signal, SignalAction, Startup, StartupStep,
};
use agent_daemon::error::AgentdError;
use agent_daemon::logging::Level;

#[test]
fn the_configuration_is_the_named_file_or_the_default_one() {
    let named = config_source(Some("/a".to_string()), "/d".to_string(), false);
    assert!(matches!(named, ConfigSource::File(p) if p == "/a"));
    let default = config_source(None, "/d".to_string(), true);
    assert!(matches!(default, ConfigSource::File(p) if p == "/d"));
    let none = config_source(None, "/d".to_string(), false);
    assert!(
        matches!(none, ConfigSource::Defaults { note } if note == "agentd: no config at /d; using defaults")
    );
}

#[test]
fn startup_goes_through_every_stage() {
    let mut stage = Startup::Config;
    let mut seen = vec![stage];
    while stage != Startup::Running {
        stage = match startup_step(stage, Ok(())) {
            StartupStep::Proceed(next) => next,
            other => panic!("unexpected {other:?}"),
        };
        seen.push(stage);
    }
    assert_eq!(
        seen,
        vec![
            Startup::Config,
            Startup::Logging,
            Startup::Store,
            Startup::Registry,
            Startup::Connect,
            Startup::Consumers,
            Startup::Socket,
            Startup::Hangup,
            Startup::Terminate,
            Startup::Running
        ]
    );
}

#[test]
fn failures_stop_the_startup() {
    for stage in [Startup::Config, Startup::Logging] {
        let step = startup_step(stage, Err("why".to_string()));
        assert!(
            matches!(step, StartupStep::Abort(Notice::Stderr(m)) if m == "agentd: why"),
            "{stage:?}"
        );
    }
    for (stage, message) in [
        (Startup::Store, "cannot open dedup store: why"),
        (Startup::Registry, "cannot load agent registry: why"),
        (Startup::Connect, "relay connection failed: why"),
        (Startup::Socket, "cannot bind control socket: why"),
        (Startup::Hangup, "cannot install SIGHUP handler: why"),
        (Startup::Terminate, "cannot install SIGTERM handler: why"),
    ] {
        match startup_step(stage, Err("why".to_string())) {
            StartupStep::Abort(Notice::Log(r)) => {
                assert_eq!(r.message, message);
                assert_eq!(r.level, Level::Error);
            }
            other => panic!("unexpected {other:?}"),
        }
    }
    match startup_step(Startup::Consumers, Err("why".to_string())) {
        StartupStep::Warn(next, r) => {
            assert_eq!(next, Startup::Socket);
            assert_eq!(r.message, "consumer sync failed: why");
        }
        other => panic!("unexpected {other:?}"),
    }
}

#[test]
fn signals_reload_or_stop() {
    assert!(matches!(on_signal(Signal::Hangup), SignalAction::Reload));
    match on_signal(Signal::Terminate) {
        SignalAction::Shutdown(r) => assert_eq!(r.message, "SIGTERM: draining in-flight handlers"),
        other => panic!("unexpected {other:?}"),
    }
    match on_signal(Signal::Interrupt) {
        SignalAction::Shutdown(r) => assert_eq!(r.message, "Ctrl-C: draining in-flight handlers"),
        other => panic!("unexpected {other:?}"),
    }
    assert_eq!(
        reload_failed(&AgentdError::Config("bad".to_string())).message,
        "reload failed; keeping previous registry: configuration error: bad"
    );
}

#[test]
fn stopping_drains_before_the_socket_goes() {
    let mut step = shutdown_first();
    let mut steps = vec![step];
    while step != Shutdown::Exit {
        step = shutdown_next(step);
        steps.push(step);
    }
    assert_eq!(
        steps,
        vec![
            Shutdown::StopFetching,
            Shutdown::Drain,
            Shutdown::RemoveSocket,
            Shutdown::Exit
        ]
    );
    assert_eq!(stopped().message, "agentd stopped");
    assert_eq!(running(2, "/s").message, "agentd running");
    assert_eq!(running(2, "/s").fields.len(), 2);
}

#[test]
fn a_purge_that_fails_is_logged() {
    let r = purge_failed(&AgentdError::DedupStore("locked".to_string()));
    assert_eq!(r.message, "dedup purge failed: dedup store error: locked");
}
