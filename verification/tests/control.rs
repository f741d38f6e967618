use agent_daemon::agent_id::AgentId;
use agent_daemon::config::DaemonConfig;
use agent_daemon::control::{
    apply_failed, bind_first, bind_next, socket_path, wants_answer, BindStep, DaemonHandle, Handled,
    Job, Plan, Request, Response, FALLBACK_RESPONSE, SOCKET_MODE,
};
use agent_daemon::dispatcher::Dispatcher;
use agent_daemon::error::AgentdError;
use agent_daemon::files::FileRead;
use agent_daemon::registry::{
    AgentConfig, AgentFile, Change, Entry, Listing, Loaded, Registry,
};

fn id(s: &str) -> AgentId {
    AgentId::parse(s).unwrap()
}

fn agent(s: &str, handler: &str, enabled: bool) -> AgentConfig {
    AgentConfig {
        agent_id: id(s),
        handler: handler.to_string(),
        max_concurrency: 1,
        working_directory: None,
        enabled,
    }
}

/// Plays the caller of the control plane over a directory in memory.
struct Fixture {
    handle: DaemonHandle,
    files: Vec<AgentConfig>,
    changes: Vec<Change>,
    backlog: Option<(u64, u64)>,
}

impl Fixture {
    fn new() -> Self {
        Self {
            handle: DaemonHandle::new(
                Registry::empty("/agents.d"),
                Dispatcher::new(3600, 256 * 1024),
                "0.1.0".to_string(),
            ),
            files: vec![],
            changes: vec![],
            backlog: None,
        }
    }

    fn load(&self) -> Loaded {
        let entries = self
            .files
            .iter()
            .map(|c| {
                Entry::File(AgentFile {
                    name: format!("{}.toml", c.agent_id.as_str()),
                    read: FileRead::Parsed(c.clone()),
                    handler_exists: true,
                    handler_executable: true,
                })
            })
            .collect();
        Registry::load("/agents.d", Listing::Entries(entries))
    }

    fn write(&mut self, c: &AgentConfig) {
        self.files.retain(|f| !f.agent_id.same(&c.agent_id));
        self.files.push(c.clone());
    }

    fn rpc(&mut self, request: Request) -> Response {
        let job = match self.handle.plan(request) {
            Plan::Answer(response) => return response,
            Plan::WriteNew(agent) => {
                self.write(&agent);
                Job::Register {
                    agent,
                    persisted: Ok(()),
                }
            }
            Plan::WriteChanged(agent) => {
                self.write(&agent);
                Job::Update {
                    agent,
                    persisted: Ok(()),
                }
            }
            Plan::Delete { agent_id, path } => {
                assert_eq!(path, format!("/agents.d/{}.toml", agent_id.as_str()));
                self.files.retain(|f| !f.agent_id.same(&agent_id));
                Job::Unregister {
                    agent_id,
                    removed: Ok(()),
                }
            }
            Plan::Load { dir } => {
                assert_eq!(dir, "/agents.d");
                Job::Reload {
                    loaded: self.load(),
                }
            }
            Plan::AskBacklog(agents) => {
                let backlogs = agents.iter().map(|_| self.backlog).collect();
                Job::Status {
                    agents,
                    backlogs,
                    nats_connected: true,
                }
            }
        };
        let Handled {
            response, changes, ..
        } = self.handle.handle_request(job);
        self.changes.extend(changes);
        response
    }
}

#[test]
fn socket_is_created_with_mode_0600() {
    assert_eq!(SOCKET_MODE & 0o777, 0o600);
    // The permissions are taken away before anybody is served.
    let mut step = bind_first(false, true);
    let mut steps = vec![step];
    while step != BindStep::Serve {
        step = bind_next(step, "/run/control.sock", Some("/run"), Ok(())).unwrap();
        steps.push(step);
    }
    assert_eq!(
        steps,
        vec![
            BindStep::CreateParent,
            BindStep::Listen,
            BindStep::Restrict,
            BindStep::Serve
        ]
    );
}

#[test]
fn register_persists_and_applies_added_change() {
    let mut f = Fixture::new();
    let r = f.rpc(Request::Register {
        agent: agent("a_test", "/bin/true", true),
    });
    assert!(r.ok, "{r:?}");
    assert_eq!(f.files.len(), 1);
    assert!(matches!(&f.changes[..], [Change::Added(c)] if c.agent_id.as_str() == "a_test"));
}

#[test]
fn control_duplicate_register_is_an_error() {
    let mut f = Fixture::new();
    f.rpc(Request::Register {
        agent: agent("a_test", "/bin/true", true),
    });
    let r = f.rpc(Request::Register {
        agent: agent("a_test", "/bin/other", true),
    });
    assert!(!r.ok);
    assert!(r.error.unwrap().contains("already registered"));
    // Nothing was written and nothing handed on.
    assert_eq!(f.files[0].handler, "/bin/true");
    assert_eq!(f.changes.len(), 1);
}

#[test]
fn update_disable_unregister_flow() {
    let mut f = Fixture::new();
    f.rpc(Request::Register {
        agent: agent("a_test", "/bin/true", true),
    });

    let r = f.rpc(Request::Update {
        agent: agent("a_test", "/bin/other", true),
    });
    assert!(r.ok);
    assert!(matches!(
        &f.changes[..],
        [Change::Added(_), Change::Updated(c)] if c.handler == "/bin/other"
    ));

    let r = f.rpc(Request::Update {
        agent: agent("a_test", "/bin/other", false),
    });
    assert!(r.ok);
    assert!(matches!(
        &f.changes[..],
        [_, _, Change::Updated(c)] if !c.enabled
    ));

    let r = f.rpc(Request::List);
    let agents = r.agents.unwrap();
    assert_eq!(agents.len(), 1);
    assert_eq!(agents[0].handler, "/bin/other");
    assert!(!agents[0].enabled);

    let r = f.rpc(Request::Unregister {
        agent_id: id("a_test"),
    });
    assert!(r.ok);
    assert!(f.files.is_empty());
    assert!(matches!(
        f.changes.last(),
        Some(Change::Removed(id)) if id.as_str() == "a_test"
    ));
}

#[test]
fn reload_applies_disk_diff() {
    let mut f = Fixture::new();
    // An agent appears on disk while the daemon is running.
    f.files.push(agent("disk_agent", "/bin/true", true));
    let r = f.rpc(Request::Reload);
    assert!(r.ok);
    assert!(matches!(
        &f.changes[..],
        [Change::Added(c)] if c.agent_id.as_str() == "disk_agent"
    ));
}

#[test]
fn status_reports_agents_and_backlog() {
    let mut f = Fixture::new();
    f.rpc(Request::Register {
        agent: agent("a_test", "/bin/true", true),
    });
    f.backlog = Some((3, 1));

    let r = f.rpc(Request::Status);
    assert!(r.ok);
    let status = r.status.unwrap();
    assert!(status.nats_connected);
    assert_eq!(status.daemon_version, "0.1.0");
    assert_eq!(status.agents.len(), 1);
    let a = &status.agents[0];
    assert_eq!(a.agent_id.as_str(), "a_test");
    assert_eq!(a.in_flight, 0);
    assert_eq!(a.num_pending, Some(3));
    assert_eq!(a.num_ack_pending, Some(1));

    f.backlog = None;
    let status = f.rpc(Request::Status).status.unwrap();
    assert_eq!(status.agents[0].num_pending, None);
    assert_eq!(status.agents[0].num_ack_pending, None);
}

#[test]
fn malformed_request_returns_error_not_disconnect() {
    let parsed = Response::malformed("expected value at line 1 column 1");
    assert!(!parsed.ok);
    assert!(parsed.error.unwrap().contains("malformed request"));
    assert!(wants_answer("this is not json"));
    assert!(!wants_answer("  \t"));
    assert!(!wants_answer(""));
}

#[test]
fn stale_socket_file_is_replaced_at_bind() {
    assert_eq!(bind_first(true, true), BindStep::RemoveStale);
    let next = bind_next(BindStep::RemoveStale, "/run/control.sock", Some("/run"), Ok(()));
    assert_eq!(next.unwrap(), BindStep::CreateParent);
    assert_eq!(bind_first(false, false), BindStep::Listen);
    let next = bind_next(BindStep::RemoveStale, "control.sock", None, Ok(()));
    assert_eq!(next.unwrap(), BindStep::Listen);
}

#[test]
fn failed_binding_says_where() {
    let cases = [
        (
            BindStep::RemoveStale,
            "cannot remove stale control socket /run/c.sock: no",
        ),
        (BindStep::CreateParent, "cannot create /run: no"),
        (BindStep::Listen, "cannot bind control socket /run/c.sock: no"),
        (
            BindStep::Restrict,
            "cannot chmod control socket /run/c.sock: no",
        ),
    ];
    for (step, message) in cases {
        let e = bind_next(step, "/run/c.sock", Some("/run"), Err("no".to_string())).unwrap_err();
        assert_eq!(e.to_string(), format!("configuration error: {message}"));
    }
}

#[test]
fn requests_that_cannot_succeed_are_answered_at_once() {
    let mut f = Fixture::new();
    let r = f.rpc(Request::Register {
        agent: agent("a", "relative", true),
    });
    assert!(!r.ok);
    let r = f.rpc(Request::Update {
        agent: agent("a", "/bin/a", true),
    });
    assert_eq!(
        r.error.as_deref(),
        Some("configuration error: agent a is not registered")
    );
    let r = f.rpc(Request::Unregister { agent_id: id("a") });
    assert_eq!(
        r.error.as_deref(),
        Some("configuration error: agent a is not registered")
    );
    assert!(f.files.is_empty());
    assert!(f.changes.is_empty());
}

#[test]
fn failed_writes_are_answered_and_change_nothing() {
    let mut f = Fixture::new();
    let handled = f.handle.handle_request(Job::Register {
        agent: agent("a", "/bin/a", true),
        persisted: Err(AgentdError::Config("disk full".to_string())),
    });
    assert_eq!(
        handled.response.error.as_deref(),
        Some("configuration error: disk full")
    );
    assert!(handled.changes.is_empty());
    assert!(f.rpc(Request::List).agents.unwrap().is_empty());
}

#[test]
fn a_failed_reload_is_answered_and_changes_nothing() {
    let mut f = Fixture::new();
    f.rpc(Request::Register {
        agent: agent("a", "/bin/a", true),
    });
    f.files = vec![agent("a", "relative", true)];
    let r = f.rpc(Request::Reload);
    assert!(!r.ok);
    assert_eq!(f.rpc(Request::List).agents.unwrap()[0].handler, "/bin/a");
    assert_eq!(f.changes.len(), 1);
}

#[test]
fn the_socket_is_where_it_is_configured() {
    let config = DaemonConfig {
        control_socket: Some("/tmp/c.sock".to_string()),
        ..DaemonConfig::default()
    };
    assert_eq!(socket_path(&config).unwrap(), "/tmp/c.sock");
    assert!(socket_path(&DaemonConfig::default()).unwrap().ends_with("agentd/control.sock"));
}

#[test]
fn fixed_answers() {
    let ok = Response::ok();
    assert!(ok.ok && ok.error.is_none() && ok.agents.is_none() && ok.status.is_none());
    let err = Response::err("why".to_string());
    assert_eq!(err.error.as_deref(), Some("why"));
    let of = Response::of(Err(AgentdError::Relay("down".to_string())));
    assert_eq!(of.error.as_deref(), Some("relay error: down"));
    assert!(Response::of(Ok(())).ok);
    let fallback: serde_json::Value = serde_json::from_str(FALLBACK_RESPONSE).unwrap();
    assert_eq!(fallback["ok"], serde_json::Value::Bool(false));
    assert_eq!(
        apply_failed(&AgentdError::Config("x".to_string())).message,
        "applying registry changes failed: configuration error: x"
    );
}
