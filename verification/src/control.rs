//! The local control plane: what each request on the control socket does and
//! what it is answered.
//!
//! Every change of the registry goes through one handle, whether a request or
//! a signal asks for it: the registry is changed, what the dispatcher keeps of
//! the agents concerned is renewed, and the changes are handed back for the
//! consumers. So a registration takes effect at once, without a restart.

use vstd::prelude::*;
use vstd::string::*;

use crate::agent_id::AgentId;
use crate::config;
use crate::config::DaemonConfig;
use crate::dispatcher;
use crate::dispatcher::{model, Dispatcher};
use crate::error::AgentdError;
use crate::logging;
use crate::logging::{plain, Level, Record};
use crate::registry;
use crate::registry::{AgentConfig, AgentConfigModel, Change, ChangeModel, Loaded, Registry};
use crate::text;
use crate::text::{blank, glue};

pub mod laws;

verus! {

/// One request.
#[derive(Debug)]
pub enum Request {
    Register { agent: AgentConfig },
    Update { agent: AgentConfig },
    Unregister { agent_id: AgentId },
    List,
    Reload,
    Status,
}

/// The state of one agent.
#[derive(Debug)]
pub struct AgentStatus {
    pub agent_id: AgentId,
    pub handler: String,
    pub max_concurrency: u32,
    pub enabled: bool,
    pub in_flight: usize,
    /// Messages that wait at the relay; unknown where the relay did not say.
    pub num_pending: Option<u64>,
    /// Messages that were delivered and not yet acknowledged.
    pub num_ack_pending: Option<u64>,
}

/// The state of the daemon.
#[derive(Debug)]
pub struct StatusReport {
    pub daemon_version: String,
    pub nats_connected: bool,
    pub agents: Vec<AgentStatus>,
}

/// The answer to a request.
#[derive(Debug)]
pub struct Response {
    pub ok: bool,
    pub error: Option<String>,
    pub agents: Option<Vec<AgentConfig>>,
    pub status: Option<StatusReport>,
}

/// What is written where an answer cannot be encoded.
pub const FALLBACK_RESPONSE: &'static str =
    "{\"ok\":false,\"error\":\"response serialization failed\"}";

/// A bare success.
pub open spec fn is_ok(r: Response) -> bool {
    r.ok && r.error is None && r.agents is None && r.status is None
}

/// A failure, with what is said of it.
pub open spec fn is_err(r: Response, message: Seq<char>) -> bool {
    !r.ok && (r.error matches Some(e) && e@ == message) && r.agents is None && r.status is None
}

impl Response {
    /// A bare success.
    pub fn ok() -> (r: Response)
        ensures
            is_ok(r),
    {
        Response { ok: true, error: None, agents: None, status: None }
    }

    /// A failure.
    pub fn err(message: String) -> (r: Response)
        ensures
            is_err(r, message@),
    {
        Response { ok: false, error: Some(message), agents: None, status: None }
    }

    /// The answer to an operation that gives nothing but its success.
    pub fn of(result: Result<(), AgentdError>) -> (r: Response)
        ensures
            match result {
                Ok(_) => is_ok(r),
                Err(e) => is_err(r, e.message()),
            },
    {
        match result {
            Ok(_) => Response::ok(),
            Err(e) => Response::err(e.to_string()),
        }
    }

    /// The answer to a line that is no request. The connection stays open.
    pub fn malformed(cause: &str) -> (r: Response)
        ensures
            is_err(r, "malformed request: "@ + cause@),
    {
        Response::err(glue("malformed request: ", cause))
    }
}

/// Whether a line of a connection is to be answered: blank ones are passed
/// over.
pub fn wants_answer(line: &str) -> (r: bool)
    ensures
        r == !text::is_blank(line@),
{
    !blank(line)
}

/// Everything that requests and signals drive.
#[derive(Debug)]
pub struct DaemonHandle {
    pub registry: Registry,
    pub dispatcher: Dispatcher,
    pub version: String,
}

/// What an operation gives: how it went, and the changes that are left to be
/// applied to the consumers.
#[derive(Debug)]
pub struct Applied {
    pub result: Result<(), AgentdError>,
    pub changes: Vec<Change>,
}

/// The dispatcher after changes.
pub open spec fn renewed(d: Dispatcher, changes: Seq<ChangeModel>) -> model::DispatcherModel {
    model::without_gates(d@, dispatcher::changed_agents(changes))
}

/// An operation failed and nothing changed.
pub open spec fn refused(before: DaemonHandle, after: DaemonHandle, applied: Applied) -> bool {
    &&& applied.result is Err
    &&& applied.changes@.len() == 0
    &&& after.registry@ == before.registry@
    &&& after.dispatcher@ == before.dispatcher@
}

/// An operation made one change of the registry: the dispatcher took note of
/// it, and it is left to be applied to the consumers.
pub open spec fn made_change(
    before: DaemonHandle,
    after: DaemonHandle,
    applied: Applied,
    agents: Map<Seq<char>, AgentConfigModel>,
    change: ChangeModel,
) -> bool {
    &&& applied.result is Ok
    &&& registry::changes_view(applied.changes@) == seq![change]
    &&& after.registry@ == agents
    &&& after.dispatcher@ == renewed(before.dispatcher, seq![change])
}

/// Registering an agent, given how writing its file went.
pub open spec fn register_of(
    before: DaemonHandle,
    after: DaemonHandle,
    agent: AgentConfig,
    persisted: Result<(), AgentdError>,
    applied: Applied,
) -> bool {
    match registry::register_fault(before.registry@, agent@) {
        Some(m) => refused(before, after, applied) && (applied.result matches Err(
            AgentdError::Config(n),
        ) && n@ == m),
        None => match persisted {
            Err(e) => refused(before, after, applied) && applied.result == Err::<
                (),
                AgentdError,
            >(e),
            Ok(_) => made_change(
                before,
                after,
                applied,
                before.registry@.insert(agent@.agent_id, agent@),
                ChangeModel::Added(agent@),
            ),
        },
    }
}

/// Updating an agent, given how writing its file went.
pub open spec fn update_of(
    before: DaemonHandle,
    after: DaemonHandle,
    agent: AgentConfig,
    persisted: Result<(), AgentdError>,
    applied: Applied,
) -> bool {
    match registry::update_fault(before.registry@, agent@) {
        Some(m) => refused(before, after, applied) && (applied.result matches Err(
            AgentdError::Config(n),
        ) && n@ == m),
        None => match persisted {
            Err(e) => refused(before, after, applied) && applied.result == Err::<
                (),
                AgentdError,
            >(e),
            Ok(_) => made_change(
                before,
                after,
                applied,
                before.registry@.insert(agent@.agent_id, agent@),
                ChangeModel::Updated(agent@),
            ),
        },
    }
}

/// Unregistering an agent, given how deleting its file went.
pub open spec fn unregister_of(
    before: DaemonHandle,
    after: DaemonHandle,
    id: Seq<char>,
    removed: Result<(), String>,
    applied: Applied,
) -> bool {
    if !before.registry@.dom().contains(id) {
        refused(before, after, applied) && (applied.result matches Err(AgentdError::Config(n))
            && n@ == registry::not_registered(id))
    } else {
        match removed {
            Err(e) => refused(before, after, applied) && (applied.result matches Err(
                AgentdError::Config(n),
            ) && n@ == "cannot remove "@ + registry::file_of(before.registry.directory(), id)
                + ": "@ + e@),
            Ok(_) => made_change(
                before,
                after,
                applied,
                before.registry@.remove(id),
                ChangeModel::Removed(id),
            ),
        }
    }
}

/// Reloading the registry, given what loading its directory gave. A directory
/// that does not load leaves everything as it is.
pub open spec fn reload_of(
    before: DaemonHandle,
    after: DaemonHandle,
    fresh: Result<Registry, AgentdError>,
    applied: Applied,
) -> bool {
    match fresh {
        Err(e) => refused(before, after, applied) && applied.result == Err::<(), AgentdError>(e),
        Ok(f) => {
            &&& applied.result is Ok
            &&& after.registry@ == f@
            &&& registry::diff::is_diff(
                before.registry@,
                f@,
                registry::changes_view(applied.changes@),
            )
            &&& after.dispatcher@ == renewed(
                before.dispatcher,
                registry::changes_view(applied.changes@),
            )
        },
    }
}

fn one_change(change: Change) -> (v: Vec<Change>)
    ensures
        registry::changes_view(v@) == seq![change@],
{
    let mut v: Vec<Change> = Vec::new();
    v.push(change);
    assert(registry::changes_view(v@) =~= seq![change@]);
    v
}

/// What to do before a request can be answered.
#[derive(Debug)]
pub enum Plan {
    /// Nothing: this is the answer.
    Answer(Response),
    /// Write the agent's file, then register it.
    WriteNew(AgentConfig),
    /// Write the agent's file, then update it.
    WriteChanged(AgentConfig),
    /// Delete the agent's file, then unregister it.
    Delete { agent_id: AgentId, path: String },
    /// Load the directory of registrations, then take it over.
    Load { dir: String },
    /// Ask the relay for the backlog of these agents, then report.
    AskBacklog(Vec<AgentConfig>),
}

/// What was done for a request.
#[derive(Debug)]
pub enum Job {
    Register { agent: AgentConfig, persisted: Result<(), AgentdError> },
    Update { agent: AgentConfig, persisted: Result<(), AgentdError> },
    Unregister { agent_id: AgentId, removed: Result<(), String> },
    Reload { loaded: Loaded },
    /// What the relay said of each of the agents, in their order: the messages
    /// that wait, and those not yet acknowledged.
    Status {
        agents: Vec<AgentConfig>,
        backlogs: Vec<Option<(u64, u64)>>,
        nats_connected: bool,
    },
}

/// What a request leads to: the answer, the changes that are left to be
/// applied to the consumers, and what to log.
#[derive(Debug)]
pub struct Handled {
    pub response: Response,
    pub changes: Vec<Change>,
    pub log: Vec<Record>,
}

/// What the relay said of the agent at a place.
pub open spec fn backlog_at(backlogs: Seq<Option<(u64, u64)>>, i: int) -> Option<(u64, u64)> {
    if 0 <= i < backlogs.len() {
        backlogs[i]
    } else {
        None
    }
}

/// The status of an agent.
pub open spec fn is_status_of(
    s: AgentStatus,
    c: AgentConfigModel,
    in_flight: nat,
    backlog: Option<(u64, u64)>,
) -> bool {
    &&& s.agent_id@ == c.agent_id
    &&& s.handler@ == c.handler
    &&& s.max_concurrency == c.max_concurrency
    &&& s.enabled == c.enabled
    &&& s.in_flight == in_flight
    &&& match backlog {
        Some((pending, ack_pending)) => s.num_pending == Some(pending) && s.num_ack_pending
            == Some(ack_pending),
        None => s.num_pending is None && s.num_ack_pending is None,
    }
}

/// The status of the first `n` agents.
pub open spec fn are_statuses_of(
    statuses: Seq<AgentStatus>,
    agents: Seq<AgentConfig>,
    backlogs: Seq<Option<(u64, u64)>>,
    d: model::DispatcherModel,
    n: int,
) -> bool {
    &&& statuses.len() == n
    &&& forall|i: int|
        0 <= i < n ==> is_status_of(
            #[trigger] statuses[i],
            agents[i]@,
            model::in_flight_of(d, agents[i]@.agent_id),
            backlog_at(backlogs, i),
        )
}

/// What doing a job leads to.
pub open spec fn handled_of(
    before: DaemonHandle,
    after: DaemonHandle,
    job: Job,
    handled: Handled,
) -> bool {
    match job {
        Job::Status { agents, backlogs, nats_connected } => {
            &&& after.registry@ == before.registry@
            &&& after.dispatcher@ == before.dispatcher@
            &&& handled.changes@.len() == 0
            &&& handled.log@.len() == 0
            &&& handled.response.ok
            &&& handled.response.error is None
            &&& handled.response.agents is None
            &&& handled.response.status matches Some(s) && {
                &&& s.daemon_version@ == before.version@
                &&& s.nats_connected == nats_connected
                &&& are_statuses_of(
                    s.agents@,
                    agents@,
                    backlogs@,
                    before.dispatcher@,
                    agents@.len() as int,
                )
            }
        },
        _ => exists|result: Result<(), AgentdError>|
            #[trigger] done_with(before, after, job, handled, result),
    }
}

/// What doing a job that changes the registry leads to, where its result is
/// given.
pub open spec fn done_with(
    before: DaemonHandle,
    after: DaemonHandle,
    job: Job,
    handled: Handled,
    result: Result<(), AgentdError>,
) -> bool {
    let applied = Applied { result, changes: handled.changes };
    &&& match result {
        Ok(_) => is_ok(handled.response),
        Err(e) => is_err(handled.response, e.message()),
    }
    &&& match job {
        Job::Register { agent, persisted } => register_of(before, after, agent, persisted, applied)
            && handled.log@.len() == 0,
        Job::Update { agent, persisted } => update_of(before, after, agent, persisted, applied)
            && handled.log@.len() == 0,
        Job::Unregister { agent_id, removed } => unregister_of(
            before,
            after,
            agent_id@,
            removed,
            applied,
        ) && handled.log@.len() == 0,
        Job::Reload { loaded } => reload_of(before, after, loaded.outcome, applied) && handled.log@
            == loaded.log@,
        Job::Status { .. } => true,
    }
}

impl DaemonHandle {
    /// What holds of the handle at all times.
    pub open spec fn well_formed(self) -> bool {
        self.registry.well_formed() && self.dispatcher.well_formed()
    }

    /// The handle of a daemon.
    pub fn new(registry: Registry, dispatcher: Dispatcher, version: String) -> (h: DaemonHandle)
        requires
            registry.well_formed(),
            dispatcher.well_formed(),
        ensures
            h.well_formed(),
            h.registry == registry,
            h.dispatcher == dispatcher,
            h.version == version,
    {
        DaemonHandle { registry, dispatcher, version }
    }

    /// The one way in which changes take effect: the dispatcher renews what it
    /// keeps of the agents concerned, and the changes are handed on for the
    /// consumers.
    pub fn apply(&mut self, changes: Vec<Change>) -> (r: Vec<Change>)
        requires
            old(self).well_formed(),
        ensures
            final(self).well_formed(),
            final(self).registry == old(self).registry,
            final(self).version == old(self).version,
            final(self).dispatcher@ == renewed(
                old(self).dispatcher,
                registry::changes_view(changes@),
            ),
            r == changes,
    {
        self.dispatcher.apply_changes(&changes);
        changes
    }

    /// Registers an agent, given how writing its file went.
    pub fn register(&mut self, agent: AgentConfig, persisted: Result<(), AgentdError>) -> (applied:
        Applied)
        requires
            old(self).well_formed(),
        ensures
            final(self).well_formed(),
            final(self).version == old(self).version,
            final(self).registry.directory() == old(self).registry.directory(),
            register_of(*old(self), *final(self), agent, persisted, applied),
    {
        match self.registry.register(&agent, persisted) {
            Err(e) => Applied { result: Err(e), changes: Vec::new() },
            Ok(_) => {
                let changes = self.apply(one_change(Change::Added(agent)));
                Applied { result: Ok(()), changes }
            },
        }
    }

    /// Updates an agent, given how writing its file went.
    pub fn update(&mut self, agent: AgentConfig, persisted: Result<(), AgentdError>) -> (applied:
        Applied)
        requires
            old(self).well_formed(),
        ensures
            final(self).well_formed(),
            final(self).version == old(self).version,
            final(self).registry.directory() == old(self).registry.directory(),
            update_of(*old(self), *final(self), agent, persisted, applied),
    {
        match self.registry.update(&agent, persisted) {
            Err(e) => Applied { result: Err(e), changes: Vec::new() },
            Ok(_) => {
                let changes = self.apply(one_change(Change::Updated(agent)));
                Applied { result: Ok(()), changes }
            },
        }
    }

    /// Unregisters an agent, given how deleting its file went.
    pub fn unregister(&mut self, id: AgentId, removed: Result<(), String>) -> (applied: Applied)
        requires
            old(self).well_formed(),
        ensures
            final(self).well_formed(),
            final(self).version == old(self).version,
            final(self).registry.directory() == old(self).registry.directory(),
            unregister_of(*old(self), *final(self), id@, removed, applied),
    {
        match self.registry.unregister(&id, removed) {
            Err(e) => Applied { result: Err(e), changes: Vec::new() },
            Ok(_) => {
                let changes = self.apply(one_change(Change::Removed(id)));
                Applied { result: Ok(()), changes }
            },
        }
    }

    /// Takes over a freshly loaded registry, given what loading gave.
    pub fn reload(&mut self, fresh: Result<Registry, AgentdError>) -> (applied: Applied)
        requires
            old(self).well_formed(),
            fresh is Ok ==> fresh->Ok_0.well_formed(),
        ensures
            final(self).well_formed(),
            final(self).version == old(self).version,
            final(self).registry.directory() == old(self).registry.directory(),
            reload_of(*old(self), *final(self), fresh, applied),
    {
        match self.registry.reload(fresh) {
            Err(e) => Applied { result: Err(e), changes: Vec::new() },
            Ok(changes) => {
                let changes = self.apply(changes);
                Applied { result: Ok(()), changes }
            },
        }
    }

    /// What to do before a request can be answered. A request that cannot
    /// succeed is answered at once, before anything is written.
    pub fn plan(&self, request: Request) -> (p: Plan)
        requires
            self.well_formed(),
        ensures
            match request {
                Request::Register { agent } => match registry::register_fault(
                    self.registry@,
                    agent@,
                ) {
                    Some(m) => p matches Plan::Answer(r) && is_err(r, "configuration error: "@ + m),
                    None => p == Plan::WriteNew(agent),
                },
                Request::Update { agent } => match registry::update_fault(
                    self.registry@,
                    agent@,
                ) {
                    Some(m) => p matches Plan::Answer(r) && is_err(r, "configuration error: "@ + m),
                    None => p == Plan::WriteChanged(agent),
                },
                Request::Unregister { agent_id } => if self.registry@.dom().contains(agent_id@) {
                    p matches Plan::Delete { agent_id: id, path } && id == agent_id && path@
                        == registry::file_of(self.registry.directory(), agent_id@)
                } else {
                    p matches Plan::Answer(r) && is_err(
                        r,
                        "configuration error: "@ + registry::not_registered(agent_id@),
                    )
                },
                Request::List => p matches Plan::Answer(r) && {
                    &&& r.ok
                    &&& r.error is None
                    &&& r.status is None
                    &&& r.agents matches Some(agents) && registry::listing::is_listing(
                        registry::listing::configs_view(agents@),
                    ) && registry::listing::by_id(registry::listing::configs_view(agents@)) == self.registry@
                },
                Request::Reload => p matches Plan::Load { dir } && dir@
                    == self.registry.directory(),
                Request::Status => p matches Plan::AskBacklog(agents) && registry::listing::is_listing(
                    registry::listing::configs_view(agents@),
                ) && registry::listing::by_id(registry::listing::configs_view(agents@)) == self.registry@,
            },
    {
        match request {
            Request::Register { agent } => match self.registry.check_register(&agent) {
                Ok(_) => Plan::WriteNew(agent),
                Err(e) => Plan::Answer(Response::err(e.to_string())),
            },
            Request::Update { agent } => match self.registry.check_update(&agent) {
                Ok(_) => Plan::WriteChanged(agent),
                Err(e) => Plan::Answer(Response::err(e.to_string())),
            },
            Request::Unregister { agent_id } => match self.registry.check_unregister(&agent_id) {
                Ok(_) => {
                    let path = self.registry.file_path(&agent_id);
                    Plan::Delete { agent_id, path }
                },
                Err(e) => Plan::Answer(Response::err(e.to_string())),
            },
            Request::List => {
                let agents = self.registry.snapshot();
                Plan::Answer(
                    Response { ok: true, error: None, agents: Some(agents), status: None },
                )
            },
            Request::Reload => Plan::Load { dir: self.registry.dir().to_owned() },
            Request::Status => Plan::AskBacklog(self.registry.snapshot()),
        }
    }

    /// The state of the daemon: what is registered, what is being handled, and
    /// what the relay said.
    pub fn status(
        &self,
        agents: &Vec<AgentConfig>,
        backlogs: &Vec<Option<(u64, u64)>>,
        nats_connected: bool,
    ) -> (s: StatusReport)
        requires
            self.well_formed(),
        ensures
            s.daemon_version@ == self.version@,
            s.nats_connected == nats_connected,
            are_statuses_of(
                s.agents@,
                agents@,
                backlogs@,
                self.dispatcher@,
                agents@.len() as int,
            ),
    {
        let mut out: Vec<AgentStatus> = Vec::new();
        for i in 0..agents.len()
            invariant
                self.well_formed(),
                are_statuses_of(out@, agents@, backlogs@, self.dispatcher@, i as int),
        {
            let c = &agents[i];
            let backlog = if i < backlogs.len() {
                backlogs[i]
            } else {
                None
            };
            let (num_pending, num_ack_pending) = match backlog {
                Some((pending, ack_pending)) => (Some(pending), Some(ack_pending)),
                None => (None, None),
            };
            let status = AgentStatus {
                agent_id: c.agent_id.clone(),
                handler: c.handler.clone(),
                max_concurrency: c.max_concurrency,
                enabled: c.enabled,
                in_flight: self.dispatcher.in_flight(&c.agent_id),
                num_pending,
                num_ack_pending,
            };
            out.push(status);
        }
        StatusReport { daemon_version: self.version.clone(), nats_connected, agents: out }
    }

    /// Answers a request, given what was done for it.
    pub fn handle_request(&mut self, job: Job) -> (handled: Handled)
        requires
            old(self).well_formed(),
            job matches Job::Reload { loaded } ==> loaded.outcome is Ok
                ==> loaded.outcome->Ok_0.well_formed(),
        ensures
            final(self).well_formed(),
            final(self).version == old(self).version,
            final(self).registry.directory() == old(self).registry.directory(),
            handled_of(*old(self), *final(self), job, handled),
    {
        let mut log: Vec<Record> = Vec::new();
        let applied = match job {
            Job::Register { agent, persisted } => self.register(agent, persisted),
            Job::Update { agent, persisted } => self.update(agent, persisted),
            Job::Unregister { agent_id, removed } => self.unregister(agent_id, removed),
            Job::Reload { loaded } => {
                log = loaded.log;
                self.reload(loaded.outcome)
            },
            Job::Status { agents, backlogs, nats_connected } => {
                let status = self.status(&agents, &backlogs, nats_connected);
                return Handled {
                    response: Response {
                        ok: true,
                        error: None,
                        agents: None,
                        status: Some(status),
                    },
                    changes: Vec::new(),
                    log,
                };
            },
        };
        let ghost result = applied.result;
        let response = Response::of(applied.result);
        let handled = Handled { response, changes: applied.changes, log };
        assert(done_with(*old(self), *self, job, handled, result));
        handled
    }
}

/// What to log where the consumers could not follow a change.
pub fn apply_failed(e: &AgentdError) -> (r: Record)
    ensures
        r@ == logging::record_of(
            Level::Error,
            "applying registry changes failed: "@ + e.message(),
            seq![],
        ),
{
    plain(
        Level::Error,
        glue("applying registry changes failed: ", e.to_string().as_str()).as_str(),
    )
}

/// The control socket, for the daemon and for its clients alike.
pub fn socket_path(config: &DaemonConfig) -> (r: Result<String, AgentdError>)
    ensures
        config::resolves_to(config.control_socket, "control.sock"@, r),
        exists|choice: Result<config::SocketChoice, AgentdError>| #[trigger]
            call_ensures(DaemonConfig::resolved_socket, (config,), choice) && match choice {
                Ok(c) => r == Ok::<String, AgentdError>(c.path),
                Err(e) => r == Err::<String, AgentdError>(e),
            },
{
    match config.resolved_socket() {
        Ok(choice) => Ok(choice.path),
        Err(e) => Err(e),
    }
}

// ---------------------------------------------------------------------------
// The socket
// ---------------------------------------------------------------------------

/// The permission bits of the control socket: its owner alone.
pub const SOCKET_MODE: u32 = 0o600;

/// What to do next to bind the control socket.
#[derive(Debug, Clone, Copy, PartialEq, Eq, Structural)]
pub enum BindStep {
    /// Delete what an earlier daemon left behind.
    RemoveStale,
    /// Create the directory, and its parents.
    CreateParent,
    /// Listen on the socket.
    Listen,
    /// Take everybody else's permissions away.
    Restrict,
    /// Serve.
    Serve,
}

/// The step after a step that went well.
pub open spec fn bind_after(step: BindStep, has_parent: bool) -> BindStep {
    match step {
        BindStep::RemoveStale => if has_parent {
            BindStep::CreateParent
        } else {
            BindStep::Listen
        },
        BindStep::CreateParent => BindStep::Listen,
        BindStep::Listen => BindStep::Restrict,
        BindStep::Restrict => BindStep::Serve,
        BindStep::Serve => BindStep::Serve,
    }
}

/// What is said of a step that failed.
pub open spec fn bind_fault(step: BindStep, path: Seq<char>, parent: Seq<char>, cause: Seq<char>) -> Seq<
    char,
> {
    match step {
        BindStep::RemoveStale => "cannot remove stale control socket "@ + path + ": "@ + cause,
        BindStep::CreateParent => "cannot create "@ + parent + ": "@ + cause,
        BindStep::Listen => "cannot bind control socket "@ + path + ": "@ + cause,
        BindStep::Restrict => "cannot chmod control socket "@ + path + ": "@ + cause,
        BindStep::Serve => cause,
    }
}

/// What to do first to bind the control socket: a file that is there is
/// deleted.
pub fn bind_first(present: bool, has_parent: bool) -> (s: BindStep)
    ensures
        s == if present {
            BindStep::RemoveStale
        } else {
            bind_after(BindStep::RemoveStale, has_parent)
        },
{
    if present {
        BindStep::RemoveStale
    } else if has_parent {
        BindStep::CreateParent
    } else {
        BindStep::Listen
    }
}

/// What to do after a step to bind the control socket, given how it went.
/// `parent` is the directory of the socket, if it has one.
pub fn bind_next(
    step: BindStep,
    path: &str,
    parent: Option<&str>,
    outcome: Result<(), String>,
) -> (r: Result<BindStep, AgentdError>)
    ensures
        match outcome {
            Ok(_) => r == Ok::<BindStep, AgentdError>(bind_after(step, parent is Some)),
            Err(e) => r matches Err(AgentdError::Config(m)) && m@ == bind_fault(
                step,
                path@,
                match parent {
                    Some(p) => p@,
                    None => Seq::empty(),
                },
                e@,
            ),
        },
{
    let e = match outcome {
        Ok(_) => {
            return Ok(
                match step {
                    BindStep::RemoveStale => if parent.is_some() {
                        BindStep::CreateParent
                    } else {
                        BindStep::Listen
                    },
                    BindStep::CreateParent => BindStep::Listen,
                    BindStep::Listen => BindStep::Restrict,
                    BindStep::Restrict => BindStep::Serve,
                    BindStep::Serve => BindStep::Serve,
                },
            );
        },
        Err(e) => e,
    };
    let mut m = String::new();
    match step {
        BindStep::RemoveStale => {
            m.append("cannot remove stale control socket ");
            m.append(path);
            m.append(": ");
        },
        BindStep::CreateParent => {
            m.append("cannot create ");
            if let Some(p) = parent {
                m.append(p);
            }
            m.append(": ");
        },
        BindStep::Listen => {
            m.append("cannot bind control socket ");
            m.append(path);
            m.append(": ");
        },
        BindStep::Restrict => {
            m.append("cannot chmod control socket ");
            m.append(path);
            m.append(": ");
        },
        BindStep::Serve => {},
    }
    m.append(e.as_str());
    proof {
        let dir: Seq<char> = match parent {
            Some(p) => p@,
            None => Seq::empty(),
        };
        assert(m@ =~= bind_fault(step, path@, dir, e@));
    }
    Err(AgentdError::config(m))
}

// ---------------------------------------------------------------------------
// Laws
// ---------------------------------------------------------------------------

/// An answer is a success exactly where it carries no error.
pub proof fn lemma_answers_are_plain(
    before: DaemonHandle,
    after: DaemonHandle,
    job: Job,
    handled: Handled,
)
    requires
        handled_of(before, after, job, handled),
    ensures
        handled.response.ok == (handled.response.error is None),
{
}

/// A request that is refused changes nothing and hands nothing on.
pub proof fn lemma_refused_changes_nothing(
    before: DaemonHandle,
    after: DaemonHandle,
    job: Job,
    handled: Handled,
)
    requires
        handled_of(before, after, job, handled),
        !handled.response.ok,
    ensures
        after.registry@ == before.registry@,
        after.dispatcher@ == before.dispatcher@,
        handled.changes@.len() == 0,
{
}

/// The changes that a request hands on lead from the registry before it to one
/// that agrees with the registry after it.
pub proof fn lemma_changes_tell_all(
    before: DaemonHandle,
    after: DaemonHandle,
    job: Job,
    handled: Handled,
)
    requires
        before.well_formed(),
        after.well_formed(),
        handled_of(before, after, job, handled),
    ensures
        registry::laws::states_agree(
            registry::laws::patched(before.registry@, registry::changes_view(handled.changes@)),
            after.registry@,
        ),
{
    let changes = registry::changes_view(handled.changes@);
    assert(registry::laws::keyed(before.registry@)) by {
        assert forall|id: Seq<char>| before.registry@.dom().contains(id) implies (
        #[trigger] before.registry@[id]).agent_id == id by {
            registry::laws::lemma_registered_agents(before.registry, id);
        }
    }
    assert(registry::laws::keyed(after.registry@)) by {
        assert forall|id: Seq<char>| after.registry@.dom().contains(id) implies (
        #[trigger] after.registry@[id]).agent_id == id by {
            registry::laws::lemma_registered_agents(after.registry, id);
        }
    }
    if changes.len() == 1 {
        assert(changes.drop_last() =~= seq![]);
    }
    reveal_with_fuel(registry::laws::patched, 2);
    match job {
        Job::Reload { .. } => {
            if handled.response.ok {
                registry::laws::lemma_diff_patches(before.registry@, after.registry@, changes);
            } else {
                assert(changes =~= seq![]);
            }
        },
        Job::Status { .. } => {
            assert(changes =~= seq![]);
        },
        _ => {
            if !handled.response.ok {
                assert(changes =~= seq![]);
            }
        },
    }
}

/// Nobody is served before everybody else's permissions are gone, and a step
/// that fails ends the binding.
pub proof fn lemma_restricted_before_served(step: BindStep, has_parent: bool)
    ensures
        bind_after(step, has_parent) == BindStep::Serve <==> step == BindStep::Restrict || step
            == BindStep::Serve,
        bind_after(step, has_parent) == BindStep::Restrict <==> step == BindStep::Listen,
{
}

} // verus!
