use agent_daemon::agent_id::AgentId;
use agent_daemon::control::{
    AgentStatus, DaemonHandle, Job, Plan, Request, Response, StatusReport,
};
use agent_daemon::ctl::{
    connection_error, new_config, outcome, render_list, render_status, updated_config,
    UpdateOptions,
};
use agent_daemon::dispatcher::Dispatcher;
use agent_daemon::files::FileRead;
use agent_daemon::registry::{AgentConfig, AgentFile, Entry, Listing, Registry};

fn id(s: &str) -> AgentId {
    AgentId::parse(s).unwrap()
}

fn options() -> UpdateOptions {
    UpdateOptions {
        handler: None,
        max_concurrency: None,
        cwd: None,
        enable: false,
        disable: false,
    }
}

fn one() -> Vec<AgentConfig> {
    vec![new_config(id("t_one"), "/bin/true".to_string(), 1, None)]
}

/// A daemon over a directory in memory, and the commands of its client.
struct Ctl {
    handle: DaemonHandle,
    files: Vec<AgentConfig>,
}

impl Ctl {
    fn new() -> Self {
        Self {
            handle: DaemonHandle::new(
                Registry::empty("/agents.d"),
                Dispatcher::new(3600, 256 * 1024),
                "0.1.0".to_string(),
            ),
            files: vec![],
        }
    }

    fn write(&mut self, agent: &AgentConfig) {
        self.files.retain(|f| !f.agent_id.same(&agent.agent_id));
        self.files.push(agent.clone());
    }

    fn ask(&mut self, request: Request) -> Result<Response, String> {
        let job = match self.handle.plan(request) {
            Plan::Answer(response) => {
                return outcome(&response).map(|_| response);
            }
            Plan::WriteNew(agent) => {
                self.write(&agent);
                let persisted = Ok(());
                Job::Register { agent, persisted }
            }
            Plan::WriteChanged(agent) => {
                self.write(&agent);
                let persisted = Ok(());
                Job::Update { agent, persisted }
            }
            Plan::Delete { agent_id, .. } => {
                self.files.retain(|f| !f.agent_id.same(&agent_id));
                let removed = Ok(());
                Job::Unregister { agent_id, removed }
            }
            Plan::Load { dir } => {
                let entries = self
                    .files
                    .iter()
                    .map(|c| {
                        Entry::File(AgentFile {
                            name: format!("{}.toml", c.agent_id.as_str()),
                            read: FileRead::Parsed(c.clone()),
                            handler_exists: true,
                            handler_executable: true,
                        })
                    })
                    .collect();
                let loaded = Registry::load(&dir, Listing::Entries(entries));
                Job::Reload { loaded }
            }
            Plan::AskBacklog(agents) => {
                let backlogs = agents.iter().map(|_| Some((0, 0))).collect();
                Job::Status {
                    agents,
                    backlogs,
                    nats_connected: true,
                }
            }
        };
        let response = self.handle.handle_request(job).response;
        outcome(&response).map(|_| response)
    }

    fn register(&mut self, name: &str, handler: &str) -> Result<Response, String> {
        let agent = new_config(id(name), handler.to_string(), 1, None);
        self.ask(Request::Register { agent })
    }

    fn update(&mut self, name: &str, options: &UpdateOptions) -> Result<Response, String> {
        let agents = self.ask(Request::List)?.agents.unwrap();
        let agent = updated_config(&agents, &id(name), options)?;
        self.ask(Request::Update { agent })
    }

    fn list(&mut self) -> String {
        render_list(&self.ask(Request::List).unwrap().agents.unwrap())
    }

    fn status(&mut self) -> String {
        render_status(&self.ask(Request::Status).unwrap().status.unwrap())
    }
}

#[test]
fn register_persists_and_lists() {
    let mut f = Ctl::new();
    f.register("t_one", "/bin/true").unwrap();
    assert_eq!(f.files.len(), 1);
    assert_eq!(f.files[0].agent_id.as_str(), "t_one");

    let list = f.list();
    assert!(list.contains("t_one"), "{list}");
    assert!(list.contains("enabled"), "{list}");
    assert!(list.contains("/bin/true"), "{list}");
    assert_eq!(
        list,
        "AGENT                    STATE    CONC  HANDLER\n\
         t_one                    enabled  1     /bin/true\n"
    );
}

#[test]
fn duplicate_register_fails_loudly() {
    let mut f = Ctl::new();
    f.register("t_one", "/bin/true").unwrap();
    let e = f.register("t_one", "/bin/false").unwrap_err();
    assert!(e.contains("already registered"), "{e}");
    assert!(f.list().contains("/bin/true"));
}

#[test]
fn answers_succeed_or_say_why_not() {
    assert!(outcome(&Response::ok()).is_ok());
    let r = Response::err("why".to_string());
    assert_eq!(outcome(&r).unwrap_err(), "why");
    let mut silent = Response::err(String::new());
    silent.error = None;
    assert_eq!(outcome(&silent).unwrap_err(), "unknown error");
}

#[test]
fn update_disable_shows_in_list() {
    let mut f = Ctl::new();
    f.register("t_one", "/bin/true").unwrap();
    f.update(
        "t_one",
        &UpdateOptions {
            disable: true,
            ..options()
        },
    )
    .unwrap();
    let list = f.list();
    assert!(list.contains("disabled"), "{list}");

    // Re-enable and swap concurrency in one update.
    f.update(
        "t_one",
        &UpdateOptions {
            enable: true,
            max_concurrency: Some(4),
            ..options()
        },
    )
    .unwrap();
    let list = f.list();
    assert!(list.contains("enabled") && list.contains("4"), "{list}");
    assert!(list.contains("/bin/true"), "{list}");
}

#[test]
fn update_missing_agent_errors() {
    let mut f = Ctl::new();
    let disable = UpdateOptions {
        disable: true,
        ..options()
    };
    let e = f.update("ghost_agent", &disable).unwrap_err();
    assert!(e.contains("not registered"), "{e}");
}

#[test]
fn updates_keep_what_they_do_not_name() {
    let c = updated_config(
        &one(),
        &id("t_one"),
        &UpdateOptions {
            handler: Some("/bin/new".to_string()),
            cwd: Some("/w".to_string()),
            ..options()
        },
    )
    .unwrap();
    assert_eq!(c.handler, "/bin/new");
    assert_eq!(c.working_directory.as_deref(), Some("/w"));
    assert_eq!(c.max_concurrency, 1);
    assert!(c.enabled);
}

#[test]
fn status_shape() {
    let mut f = Ctl::new();
    f.register("t_one", "/bin/true").unwrap();
    let status = f.status();
    assert!(status.contains("daemon: v"), "{status}");
    assert!(status.contains("nats: connected"), "{status}");
    assert!(status.contains("t_one"), "{status}");
    assert!(status.contains("0"), "in_flight column present: {status}");
}

#[test]
fn status_is_a_table() {
    let report = StatusReport {
        daemon_version: "0.1.0".to_string(),
        nats_connected: true,
        agents: vec![
            AgentStatus {
                agent_id: id("my_agent"),
                handler: "/bin/true".to_string(),
                max_concurrency: 1,
                enabled: true,
                in_flight: 0,
                num_pending: Some(0),
                num_ack_pending: Some(0),
            },
            AgentStatus {
                agent_id: id("an_agent_with_a_name_beyond_the_column"),
                handler: "/bin/true".to_string(),
                max_concurrency: 12,
                enabled: false,
                in_flight: 3,
                num_pending: None,
                num_ack_pending: None,
            },
        ],
    };
    let status = render_status(&report);
    assert_eq!(
        status,
        "daemon: v0.1.0\n\
         nats: connected\n\
         AGENT                    STATE    CONC  INFLIGHT  PENDING  ACKPEND\n\
         my_agent                 enabled  1     0         0        0\n\
         an_agent_with_a_name_beyond_the_column disabled 12    3         -        -\n"
    );
    let down = StatusReport {
        nats_connected: false,
        agents: vec![],
        ..report
    };
    assert!(render_status(&down).contains("nats: disconnected\n"));
}

#[test]
fn unregister_empties_list_and_reload_ok() {
    let mut f = Ctl::new();
    f.register("t_one", "/bin/true").unwrap();
    f.ask(Request::Unregister {
        agent_id: id("t_one"),
    })
    .unwrap();
    assert!(f.files.is_empty());

    let list = f.list();
    assert!(list.contains("no agents"), "{list}");
    assert!(!f.status().contains("t_one"));

    f.ask(Request::Reload).unwrap();
    assert!(f.list().contains("no agents"));
}

#[test]
fn ctl_without_daemon_reports_connection_error() {
    let e = connection_error("/nonexistent-agentd-ctl-test/control.sock", "not found");
    assert!(e.contains("is agentd running?"), "{e}");
    assert_eq!(
        e,
        "cannot connect to /nonexistent-agentd-ctl-test/control.sock: not found \
         (is agentd running?)"
    );
}
