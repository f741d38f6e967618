//! Laws of the control plane, told by what is asked, what was done, and what is
//! answered.

use vstd::prelude::*;

use crate::agent_id::AgentId;
use crate::config;
use crate::config::{DaemonConfig, SocketChoice};
use crate::control;
use crate::control::{
    Applied, BindStep, DaemonHandle, Handled, Job, Plan, Request, Response, StatusReport,
};
use crate::dispatcher::model;
use crate::error::AgentdError;
use crate::registry;
use crate::registry::{AgentConfig, Change, ChangeModel, Registry};
use crate::text;

verus! {

/// A line is answered exactly where it holds a character that is not white.
pub proof fn lemma_wants_answer(line: &str, r: bool)
    requires
        call_ensures(control::wants_answer, (line,), r),
    ensures
        r <==> exists|i: int| 0 <= i < line@.len() && !text::is_white(#[trigger] line@[i]),
{
    text::laws::lemma_blank(line@);
}

/// An answer says whether the operation succeeded, and why where it did not.
pub proof fn lemma_answer(result: Result<(), AgentdError>, r: Response)
    requires
        call_ensures(Response::of, (result,), r),
    ensures
        r.ok <==> result is Ok,
        r.error is Some <==> result is Err,
        result is Err ==> r.error->0@ == result->Err_0.message(),
        r.agents is None,
        r.status is None,
{
}

/// What an error says: its kind, and its reason.
pub proof fn lemma_error_message(e: AgentdError, s: String)
    requires
        call_ensures(AgentdError::to_string, (&e,), s),
    ensures
        match e {
            AgentdError::InvalidAgentId(m) => s@ == "invalid agent id: "@ + m@,
            AgentdError::InvalidEnvelope(m) => s@ == "invalid event envelope: "@ + m@,
            AgentdError::Config(m) => s@ == "configuration error: "@ + m@,
            AgentdError::DedupStore(m) => s@ == "dedup store error: "@ + m@,
            AgentdError::Relay(m) => s@ == "relay error: "@ + m@,
        },
        s@ == e.message(),
{
}

/// A file is written for a registration exactly where the registration is sound
/// and the agent is new, and for an update exactly where the registration is
/// sound and the agent is not; what is written is what was sent. A file is
/// deleted exactly where its agent is registered, and it is that agent's.
pub proof fn lemma_planned_writes(h: DaemonHandle, request: Request, p: Plan)
    requires
        h.well_formed(),
        call_ensures(DaemonHandle::plan, (&h, request), p),
    ensures
        p is WriteNew <==> (request matches Request::Register { agent } && registry::config_fault(
            agent@,
        ) is None && !h.registry@.dom().contains(agent@.agent_id)),
        p is WriteChanged <==> (request matches Request::Update { agent }
            && registry::config_fault(agent@) is None && h.registry@.dom().contains(
            agent@.agent_id,
        )),
        p is Delete <==> (request matches Request::Unregister { agent_id }
            && h.registry@.dom().contains(agent_id@)),
        p is Load <==> request is Reload,
        p is AskBacklog <==> request is Status,
        p matches Plan::WriteNew(a) ==> request == (Request::Register { agent: a }),
        p matches Plan::WriteChanged(a) ==> request == (Request::Update { agent: a }),
        p matches Plan::Delete { agent_id, path } ==> path@ == text::joined(
            h.registry.directory(),
            agent_id@ + ".toml"@,
        ) && request == (Request::Unregister { agent_id }),
        p matches Plan::Load { dir } ==> dir@ == h.registry.directory(),
        p matches Plan::Answer(r) ==> (r.ok <==> request is List),
{
}

/// A list holds the registered agents, each once and as it is registered.
pub proof fn lemma_planned_list(h: DaemonHandle, p: Plan, i: int)
    requires
        h.well_formed(),
        call_ensures(DaemonHandle::plan, (&h, Request::List), p),
    ensures
        p is Answer,
        p->Answer_0.ok && p->Answer_0.agents is Some,
        ({
            let agents = p->Answer_0.agents->0@;
            &&& 0 <= i < agents.len() ==> h.registry@.dom().contains(agents[i]@.agent_id)
                && h.registry@[agents[i]@.agent_id] == agents[i]@
            &&& forall|id: Seq<char>| #[trigger]
                h.registry@.dom().contains(id) ==> exists|k: int|
                    0 <= k < agents.len() && (#[trigger] agents[k])@.agent_id == id
        }),
{
    let agents = p->Answer_0.agents->0@;
    let s = registry::listing::configs_view(agents);
    if 0 <= i < agents.len() {
        assert(s[i] == agents[i]@);
        registry::listing::lemma_place(s, i);
    }
    assert forall|id: Seq<char>| #[trigger] h.registry@.dom().contains(id) implies exists|k: int|
        0 <= k < agents.len() && (#[trigger] agents[k])@.agent_id == id by {
        assert(registry::listing::lists(s, id));
        let k = choose|k: int| 0 <= k < s.len() && (#[trigger] s[k]).agent_id == id;
        assert(agents[k]@ == s[k]);
    }
}

/// Registering through the handle: it succeeds exactly where the registration
/// is sound, the agent is new and its file was written. Then the agent is
/// registered so and nobody else changes; the agent's gate is gone and no other;
/// no run is touched; and the consumers are told of that agent alone.
pub proof fn lemma_register(
    h: &mut DaemonHandle,
    agent: AgentConfig,
    persisted: Result<(), AgentdError>,
    applied: Applied,
    other: Seq<char>,
)
    requires
        old(h).well_formed(),
        call_ensures(DaemonHandle::register, (h, agent, persisted), applied),
    ensures
        applied.result is Ok <==> persisted is Ok && registry::config_fault(agent@) is None && !old(h).registry@.dom().contains(agent@.agent_id),
        applied.result is Ok ==> final(h).registry@ == old(h).registry@.insert(
            agent@.agent_id,
            agent@,
        ),
        applied.result is Ok ==> applied.changes@.len() == 1 && applied.changes@[0]@
            == ChangeModel::Added(agent@),
        applied.result is Err ==> applied.changes@.len() == 0 && final(h).registry@ == old(h).registry@ && final(h).dispatcher@ == old(h).dispatcher@,
        final(h).dispatcher@.runs == old(h).dispatcher@.runs,
        final(h).dispatcher@.queue == old(h).dispatcher@.queue,
        other != agent@.agent_id ==> final(h).dispatcher@.gate_of.dom().contains(other) == old(h).dispatcher@.gate_of.dom().contains(other),
        applied.result is Ok ==> !final(h).dispatcher@.gate_of.dom().contains(agent@.agent_id),
{
    lemma_one_changed(ChangeModel::Added(agent@), other);
    lemma_one_changed(ChangeModel::Added(agent@), agent@.agent_id);
    lemma_one_change(applied.changes@, ChangeModel::Added(agent@));
}

/// Updating through the handle, in the same way.
pub proof fn lemma_update(
    h: &mut DaemonHandle,
    agent: AgentConfig,
    persisted: Result<(), AgentdError>,
    applied: Applied,
    other: Seq<char>,
)
    requires
        old(h).well_formed(),
        call_ensures(DaemonHandle::update, (h, agent, persisted), applied),
    ensures
        applied.result is Ok <==> persisted is Ok && registry::config_fault(agent@) is None && old(h).registry@.dom().contains(agent@.agent_id),
        applied.result is Ok ==> final(h).registry@ == old(h).registry@.insert(
            agent@.agent_id,
            agent@,
        ),
        applied.result is Ok ==> applied.changes@.len() == 1 && applied.changes@[0]@
            == ChangeModel::Updated(agent@),
        applied.result is Err ==> applied.changes@.len() == 0 && final(h).registry@ == old(h).registry@ && final(h).dispatcher@ == old(h).dispatcher@,
        final(h).dispatcher@.runs == old(h).dispatcher@.runs,
        final(h).dispatcher@.queue == old(h).dispatcher@.queue,
        other != agent@.agent_id ==> final(h).dispatcher@.gate_of.dom().contains(other) == old(h).dispatcher@.gate_of.dom().contains(other),
        applied.result is Ok ==> !final(h).dispatcher@.gate_of.dom().contains(agent@.agent_id),
{
    lemma_one_changed(ChangeModel::Updated(agent@), other);
    lemma_one_changed(ChangeModel::Updated(agent@), agent@.agent_id);
    lemma_one_change(applied.changes@, ChangeModel::Updated(agent@));
}

/// Unregistering through the handle, in the same way.
pub proof fn lemma_unregister(
    h: &mut DaemonHandle,
    id: AgentId,
    removed: Result<(), String>,
    applied: Applied,
    other: Seq<char>,
)
    requires
        old(h).well_formed(),
        call_ensures(DaemonHandle::unregister, (h, id, removed), applied),
    ensures
        applied.result is Ok <==> removed is Ok && old(h).registry@.dom().contains(id@),
        applied.result is Ok ==> final(h).registry@ == old(h).registry@.remove(id@),
        applied.result is Ok ==> applied.changes@.len() == 1 && applied.changes@[0]@
            == ChangeModel::Removed(id@),
        applied.result is Err ==> applied.changes@.len() == 0 && final(h).registry@ == old(h).registry@ && final(h).dispatcher@ == old(h).dispatcher@,
        final(h).dispatcher@.runs == old(h).dispatcher@.runs,
        final(h).dispatcher@.queue == old(h).dispatcher@.queue,
        other != id@ ==> final(h).dispatcher@.gate_of.dom().contains(other) == old(h).dispatcher@.gate_of.dom().contains(other),
        applied.result is Ok ==> !final(h).dispatcher@.gate_of.dom().contains(id@),
{
    lemma_one_changed(ChangeModel::Removed(id@), other);
    lemma_one_changed(ChangeModel::Removed(id@), id@);
    lemma_one_change(applied.changes@, ChangeModel::Removed(id@));
}

proof fn lemma_one_changed(change: ChangeModel, agent: Seq<char>)
    ensures
        crate::dispatcher::changed_agents(seq![change]).contains(agent) <==> change.agent()
            == agent,
{
    let s = seq![change];
    assert(s[0] == change);
    if change.agent() == agent {
        assert(s[0].agent() == agent);
    }
}

proof fn lemma_one_change(changes: Seq<Change>, change: ChangeModel)
    ensures
        registry::changes_view(changes) == seq![change] ==> changes.len() == 1 && changes[0]@
            == change,
{
    if registry::changes_view(changes) == seq![change] {
        assert(registry::changes_view(changes).len() == changes.len());
        assert(registry::changes_view(changes)[0] == changes[0]@);
    }
}

/// A reload through the handle: it fails exactly where loading did, and then
/// nothing changes. Else the registry is the loaded one, the agents that differ
/// lose their gates and no other does, and no run is touched.
pub proof fn lemma_reload(
    h: &mut DaemonHandle,
    fresh: Result<Registry, AgentdError>,
    applied: Applied,
    id: Seq<char>,
)
    requires
        old(h).well_formed(),
        fresh is Ok ==> fresh->Ok_0.well_formed(),
        call_ensures(DaemonHandle::reload, (h, fresh), applied),
    ensures
        applied.result is Ok <==> fresh is Ok,
        applied.result is Ok ==> final(h).registry@ == fresh->Ok_0@,
        applied.result is Err ==> applied.changes@.len() == 0 && final(h).registry@ == old(h).registry@ && final(h).dispatcher@ == old(h).dispatcher@,
        final(h).dispatcher@.runs == old(h).dispatcher@.runs,
        final(h).dispatcher@.queue == old(h).dispatcher@.queue,
        applied.result is Ok && old(h).dispatcher@.gate_of.dom().contains(id) ==> (final(h).dispatcher@.gate_of.dom().contains(id) <==> ({
            let before = old(h).registry@.dom().contains(id);
            let after = fresh->Ok_0@.dom().contains(id);
            let a = old(h).registry@[id];
            let b = fresh->Ok_0@[id];
            before == after && (before && after ==> a.enabled == b.enabled
                && !registry::rules::differ(a, b))
        })),
{
    if applied.result is Ok {
        let changes = registry::changes_view(applied.changes@);
        assert(registry::laws::keyed(old(h).registry@)) by {
            assert forall|k: Seq<char>| old(h).registry@.dom().contains(k) implies (
            #[trigger] old(h).registry@[k]).agent_id == k by {
                registry::laws::lemma_registered_agents(old(h).registry, k);
            }
        }
        assert(registry::laws::keyed(fresh->Ok_0@)) by {
            assert forall|k: Seq<char>| fresh->Ok_0@.dom().contains(k) implies (
            #[trigger] fresh->Ok_0@[k]).agent_id == k by {
                registry::laws::lemma_registered_agents(fresh->Ok_0, k);
            }
        }
        registry::rules::lemma_changes_by_fields(old(h).registry@, fresh->Ok_0@, changes, id);
    }
}

/// What the status says of an agent: what it is registered as, how many of its
/// events are being handled, and what the relay said of it: first what waits,
/// then what is not yet acknowledged, or nothing of either.
pub proof fn lemma_status(
    h: DaemonHandle,
    agents: Vec<AgentConfig>,
    backlogs: Vec<Option<(u64, u64)>>,
    connected: bool,
    s: StatusReport,
    i: int,
)
    requires
        h.well_formed(),
        call_ensures(DaemonHandle::status, (&h, &agents, &backlogs, connected), s),
        0 <= i < agents@.len(),
    ensures
        s.daemon_version@ == h.version@,
        s.nats_connected == connected,
        s.agents@.len() == agents@.len(),
        s.agents@[i].agent_id@ == agents@[i]@.agent_id,
        s.agents@[i].handler@ == agents@[i]@.handler,
        s.agents@[i].max_concurrency == agents@[i]@.max_concurrency,
        s.agents@[i].enabled == agents@[i]@.enabled,
        s.agents@[i].in_flight == model::in_flight_of(h.dispatcher@, agents@[i]@.agent_id),
        i < backlogs@.len() && backlogs@[i] is Some ==> ({
            let (pending, ack_pending) = backlogs@[i]->0;
            s.agents@[i].num_pending == Some(pending) && s.agents@[i].num_ack_pending == Some(
                ack_pending,
            )
        }),
        !(i < backlogs@.len() && backlogs@[i] is Some) ==> s.agents@[i].num_pending is None
            && s.agents@[i].num_ack_pending is None,
{
    assert(control::is_status_of(
        s.agents@[i],
        agents@[i]@,
        model::in_flight_of(h.dispatcher@, agents@[i]@.agent_id),
        control::backlog_at(backlogs@, i),
    ));
}

/// What a request is answered once its work was done: success exactly where the
/// work could be done and the request was in order, and else why not. Only then
/// does anything change, and the changes are about the agent that was asked for.
pub proof fn lemma_handled(h: &mut DaemonHandle, job: Job, handled: Handled)
    requires
        old(h).well_formed(),
        job matches Job::Reload { loaded } ==> loaded.outcome is Ok
            ==> loaded.outcome->Ok_0.well_formed(),
        call_ensures(DaemonHandle::handle_request, (h, job), handled),
    ensures
        handled.response.ok <==> match job {
            Job::Register { agent, persisted } => persisted is Ok && registry::config_fault(
                agent@,
            ) is None && !old(h).registry@.dom().contains(agent@.agent_id),
            Job::Update { agent, persisted } => persisted is Ok && registry::config_fault(
                agent@,
            ) is None && old(h).registry@.dom().contains(agent@.agent_id),
            Job::Unregister { agent_id, removed } => removed is Ok && old(h).registry@.dom().contains(agent_id@),
            Job::Reload { loaded } => loaded.outcome is Ok,
            Job::Status { .. } => true,
        },
        handled.response.ok ==> final(h).registry@ == match job {
            Job::Register { agent, .. } => old(h).registry@.insert(agent@.agent_id, agent@),
            Job::Update { agent, .. } => old(h).registry@.insert(agent@.agent_id, agent@),
            Job::Unregister { agent_id, .. } => old(h).registry@.remove(agent_id@),
            Job::Reload { loaded } => loaded.outcome->Ok_0@,
            Job::Status { .. } => old(h).registry@,
        },
        !handled.response.ok ==> final(h).registry@ == old(h).registry@ && final(h).dispatcher@
            == old(h).dispatcher@ && handled.changes@.len() == 0,
        handled.response.ok <==> handled.response.error is None,
        handled.response.status is Some <==> job is Status,
        handled.response.agents is None,
        final(h).dispatcher@.runs == old(h).dispatcher@.runs,
        final(h).dispatcher@.queue == old(h).dispatcher@.queue,
        final(h).version == old(h).version,
{
}

/// Binding begins with deleting what is in the way, where something is, and goes
/// from there over the directory and the socket to taking everybody else's
/// permissions away; only then is anybody served. The directory is created
/// exactly where the socket has one.
pub proof fn lemma_bind_first(present: bool, has_parent: bool, s: BindStep)
    requires
        call_ensures(control::bind_first, (present, has_parent), s),
    ensures
        s is RemoveStale <==> present,
        s is CreateParent <==> !present && has_parent,
        s is Listen <==> !present && !has_parent,
{
}

/// What follows a step of the binding.
pub proof fn lemma_bind_next(
    step: BindStep,
    path: &str,
    parent: Option<&str>,
    outcome: Result<(), String>,
    r: Result<BindStep, AgentdError>,
)
    requires
        call_ensures(control::bind_next, (step, path, parent, outcome), r),
    ensures
        r is Ok <==> outcome is Ok,
        r is Ok && step is RemoveStale && parent is Some ==> r->Ok_0 is CreateParent,
        r is Ok && step is RemoveStale && parent is None ==> r->Ok_0 is Listen,
        r is Ok && step is CreateParent ==> r->Ok_0 is Listen,
        r is Ok && step is Listen ==> r->Ok_0 is Restrict,
        r is Ok && (step is Restrict || step is Serve) ==> r->Ok_0 is Serve,
        r is Err ==> r->Err_0 is Config && text::has_suffix(
            r->Err_0->Config_0@,
            outcome->Err_0@,
        ),
{
    if r is Err {
        let m = r->Err_0->Config_0@;
        let e = outcome->Err_0@;
        assert(m.skip(m.len() - e.len()) =~= e);
    }
}

/// The socket is its owner's alone: readable and writable for that one, and
/// nothing for anybody else.
pub proof fn lemma_socket_mode()
    ensures
        control::SOCKET_MODE == 256 + 128,
{
}

/// Why a request is refused: what the registration lacks, or that the agent is
/// already or not yet registered, goes before what became of its file.
pub proof fn lemma_refusal_says_why(h: &mut DaemonHandle, job: Job, handled: Handled)
    requires
        old(h).well_formed(),
        job matches Job::Reload { loaded } ==> loaded.outcome is Ok
            ==> loaded.outcome->Ok_0.well_formed(),
        call_ensures(DaemonHandle::handle_request, (h, job), handled),
        !handled.response.ok,
    ensures
        handled.response.error is Some,
        ({
            let said = handled.response.error->0@;
            let agents = old(h).registry@;
            match job {
                Job::Register { agent, persisted } => if registry::config_fault(agent@) is Some {
                    said == "configuration error: "@ + registry::config_fault(agent@)->0
                } else if agents.dom().contains(agent@.agent_id) {
                    said == "configuration error: agent "@ + agent@.agent_id
                        + " already registered"@
                } else {
                    said == persisted->Err_0.message()
                },
                Job::Update { agent, persisted } => if registry::config_fault(agent@) is Some {
                    said == "configuration error: "@ + registry::config_fault(agent@)->0
                } else if !agents.dom().contains(agent@.agent_id) {
                    said == "configuration error: agent "@ + agent@.agent_id
                        + " is not registered"@
                } else {
                    said == persisted->Err_0.message()
                },
                Job::Unregister { agent_id, removed } => if !agents.dom().contains(agent_id@) {
                    said == "configuration error: agent "@ + agent_id@ + " is not registered"@
                } else {
                    text::has_suffix(said, removed->Err_0@)
                },
                Job::Reload { loaded } => said == loaded.outcome->Err_0.message(),
                Job::Status { .. } => false,
            }
        }),
{
    reveal_strlit("configuration error: ");
    reveal_strlit("configuration error: agent ");
    reveal_strlit("agent ");
    let said = handled.response.error->0@;
    if let Job::Register { agent, persisted } = job {
        assert("configuration error: "@ + ("agent "@ + agent@.agent_id + " already registered"@)
            =~= "configuration error: agent "@ + agent@.agent_id + " already registered"@);
    }
    if let Job::Update { agent, persisted } = job {
        assert("configuration error: "@ + ("agent "@ + agent@.agent_id + " is not registered"@)
            =~= "configuration error: agent "@ + agent@.agent_id + " is not registered"@);
    }
    if let Job::Unregister { agent_id, removed } = job {
        assert("configuration error: "@ + ("agent "@ + agent_id@ + " is not registered"@)
            =~= "configuration error: agent "@ + agent_id@ + " is not registered"@);
        if old(h).registry@.dom().contains(agent_id@) {
            let e = removed->Err_0@;
            let head = "cannot remove "@ + registry::file_of(
                old(h).registry.directory(),
                agent_id@,
            ) + ": "@;
            assert(said == "configuration error: "@ + (head + e));
            assert(said.skip(said.len() - e.len()) =~= e);
        }
    }
}

/// What a request leaves to be applied to the consumers, and to be logged: one
/// change, of the agent that was asked for; nothing is logged but what loading
/// had to say.
pub proof fn lemma_left_to_do(h: &mut DaemonHandle, job: Job, handled: Handled)
    requires
        old(h).well_formed(),
        job matches Job::Reload { loaded } ==> loaded.outcome is Ok
            ==> loaded.outcome->Ok_0.well_formed(),
        call_ensures(DaemonHandle::handle_request, (h, job), handled),
    ensures
        job matches Job::Reload { loaded } ==> handled.log@ == loaded.log@,
        !(job is Reload) ==> handled.log@.len() == 0,
        job is Status ==> handled.changes@.len() == 0,
        handled.response.ok ==> match job {
            Job::Register { agent, .. } => handled.changes@.len() == 1 && handled.changes@[0]@
                == ChangeModel::Added(agent@),
            Job::Update { agent, .. } => handled.changes@.len() == 1 && handled.changes@[0]@
                == ChangeModel::Updated(agent@),
            Job::Unregister { agent_id, .. } => handled.changes@.len() == 1 && handled.changes@[0]@
                == ChangeModel::Removed(agent_id@),
            _ => true,
        },
{
    if let Job::Register { agent, .. } = job {
        lemma_one_change(handled.changes@, ChangeModel::Added(agent@));
    }
    if let Job::Update { agent, .. } = job {
        lemma_one_change(handled.changes@, ChangeModel::Updated(agent@));
    }
    if let Job::Unregister { agent_id, .. } = job {
        lemma_one_change(handled.changes@, ChangeModel::Removed(agent_id@));
    }
}

/// A status that is asked for is answered with the status.
pub proof fn lemma_status_answered(
    h: &mut DaemonHandle,
    agents: Vec<AgentConfig>,
    backlogs: Vec<Option<(u64, u64)>>,
    connected: bool,
    handled: Handled,
    i: int,
)
    requires
        old(h).well_formed(),
        call_ensures(
            DaemonHandle::handle_request,
            (h, (Job::Status { agents, backlogs, nats_connected: connected })),
            handled,
        ),
        0 <= i < agents@.len(),
    ensures
        handled.response.status is Some,
        ({
            let s = handled.response.status->0;
            &&& s.daemon_version@ == old(h).version@
            &&& s.nats_connected == connected
            &&& s.agents@.len() == agents@.len()
            &&& s.agents@[i].agent_id@ == agents@[i]@.agent_id
            &&& s.agents@[i].handler@ == agents@[i]@.handler
            &&& s.agents@[i].max_concurrency == agents@[i]@.max_concurrency
            &&& s.agents@[i].enabled == agents@[i]@.enabled
            &&& s.agents@[i].in_flight == model::in_flight_of(
                old(h).dispatcher@,
                agents@[i]@.agent_id,
            )
            &&& i < backlogs@.len() && backlogs@[i] is Some ==> s.agents@[i].num_pending == Some(
                (backlogs@[i]->0).0,
            ) && s.agents@[i].num_ack_pending == Some((backlogs@[i]->0).1)
            &&& !(i < backlogs@.len() && backlogs@[i] is Some) ==> s.agents@[i].num_pending is None
                && s.agents@[i].num_ack_pending is None
        }),
{
    assert(control::is_status_of(
        handled.response.status->0.agents@[i],
        agents@[i]@,
        model::in_flight_of(old(h).dispatcher@, agents@[i]@.agent_id),
        control::backlog_at(backlogs@, i),
    ));
}

/// A line that is no request is answered with a failure that says why, and
/// nothing else.
pub proof fn lemma_malformed(cause: &str, r: Response)
    requires
        call_ensures(Response::malformed, (cause,), r),
    ensures
        !r.ok,
        r.error is Some,
        text::has_suffix(r.error->0@, cause@),
        r.error->0@.len() == "malformed request: "@.len() + cause@.len(),
        r.agents is None,
        r.status is None,
{
    let m = r.error->0@;
    assert(m.skip(m.len() - cause@.len()) =~= cause@);
}

/// A client looks for the control socket where the daemon puts it: where it is
/// configured, and else below the session's directory where there is one.
pub proof fn lemma_socket_path(c: DaemonConfig, r: Result<String, AgentdError>)
    requires
        call_ensures(control::socket_path, (&c,), r),
    ensures
        c.control_socket is Some ==> r is Ok && r->Ok_0@ == c.control_socket->0@,
        c.control_socket is None ==> exists|found: Option<Result<String, String>>| #[trigger]
            config::is_runtime_dir(found) && (found is Some ==> (r is Ok <==> found->0 is Ok)) && (
            (found matches Some(Ok(b)) && b@.len() > 0 && b@.last() != '/') ==> r->Ok_0@
                == found->0->Ok_0@ + "/agentd/"@ + "control.sock"@),
{
    let choice = choose|choice: Result<SocketChoice, AgentdError>| #[trigger]
        call_ensures(DaemonConfig::resolved_socket, (&c,), choice) && match choice {
            Ok(c) => r == Ok::<String, AgentdError>(c.path),
            Err(e) => r == Err::<String, AgentdError>(e),
        };
    config::laws::lemma_socket_of_user(c, choice);
}

/// Changes that were made elsewhere are taken note of: the agents concerned lose
/// their gates, no other does, and the same changes are left for the consumers.
pub proof fn lemma_applied(
    h: &mut DaemonHandle,
    changes: Vec<Change>,
    r: Vec<Change>,
    agent: Seq<char>,
)
    requires
        old(h).well_formed(),
        call_ensures(DaemonHandle::apply, (h, changes), r),
    ensures
        r@ == changes@,
        final(h).registry@ == old(h).registry@,
        final(h).dispatcher@.runs == old(h).dispatcher@.runs,
        final(h).dispatcher@.queue == old(h).dispatcher@.queue,
        final(h).dispatcher@.gate_of.dom().contains(agent) <==> old(h).dispatcher@.gate_of.dom().contains(agent)
            && forall|k: int| 0 <= k < changes@.len() ==> (#[trigger] changes@[k])@.agent()
            != agent,
{
    let all = registry::changes_view(changes@);
    if exists|k: int| 0 <= k < changes@.len() && (#[trigger] changes@[k])@.agent() == agent {
        let k = choose|k: int| 0 <= k < changes@.len() && (#[trigger] changes@[k])@.agent() == agent;
        assert(all[k].agent() == agent);
    }
    if registry::diff::mentions(all, agent) {
        let k = choose|k: int| 0 <= k < all.len() && (#[trigger] all[k]).agent() == agent;
        assert(changes@[k]@ == all[k]);
    }
}

/// The relay is asked of every registered agent, enabled or not, in the order of
/// their ids and each once; and a list has them in that order, too.
pub proof fn lemma_planned_in_order(h: DaemonHandle, p: Plan, q: Plan, i: int, j: int)
    requires
        h.well_formed(),
        call_ensures(DaemonHandle::plan, (&h, Request::Status), p),
        call_ensures(DaemonHandle::plan, (&h, Request::List), q),
    ensures
        p is AskBacklog,
        ({
            let asked = p->AskBacklog_0@;
            let listed = q->Answer_0.agents->0@;
            &&& asked.len() == listed.len()
            &&& asked.len() == h.registry@.dom().len()
            &&& 0 <= i < asked.len() ==> asked[i]@ == listed[i]@
            &&& 0 <= i < asked.len() ==> h.registry@.dom().contains(asked[i]@.agent_id)
                && h.registry@[asked[i]@.agent_id] == asked[i]@
            &&& 0 <= i < j < asked.len() ==> text::lex_lt(
                asked[i]@.agent_id,
                asked[j]@.agent_id,
            )
        }),
{
    let a = registry::listing::configs_view(p->AskBacklog_0@);
    let b = registry::listing::configs_view(q->Answer_0.agents->0@);
    registry::listing::lemma_listing_unique(a, b);
    registry::listing::lemma_listing_len(a);
    assert(a.len() == p->AskBacklog_0@.len());
    assert(b.len() == q->Answer_0.agents->0@.len());
    if 0 <= i < a.len() {
        assert(a[i] == p->AskBacklog_0@[i]@);
        assert(b[i] == q->Answer_0.agents->0@[i]@);
        registry::listing::lemma_place(a, i);
        if i < j < a.len() {
            assert(a[j] == p->AskBacklog_0@[j]@);
        }
    }
}

/// What is refused before anything is done is refused in the same words as it
/// would be afterwards, and what is not refused then succeeds if its work does.
pub proof fn lemma_planned_as_handled(
    h: &mut DaemonHandle,
    request: Request,
    p: Plan,
    job: Job,
    handled: Handled,
)
    requires
        old(h).well_formed(),
        call_ensures(DaemonHandle::plan, (&*old(h), request), p),
        call_ensures(DaemonHandle::handle_request, (h, job), handled),
        match request {
            Request::Register { agent } => job == (Job::Register { agent, persisted: Ok(()) }),
            Request::Update { agent } => job == (Job::Update { agent, persisted: Ok(()) }),
            Request::Unregister { agent_id } => job == (Job::Unregister {
                agent_id,
                removed: Ok(()),
            }),
            _ => false,
        },
    ensures
        p is Answer <==> !handled.response.ok,
        p is Answer ==> !p->Answer_0.ok && p->Answer_0.error is Some && handled.response.error
            is Some && p->Answer_0.error->0@ == handled.response.error->0@
            && p->Answer_0.agents is None && p->Answer_0.status is None,
{
}

} // verus!
