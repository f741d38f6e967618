//! The control client: what it asks of the daemon and how it shows the answer.

use vstd::prelude::*;
use vstd::string::*;

use crate::agent_id::AgentId;
use crate::control::{AgentStatus, Response, StatusReport};
use crate::registry;
use crate::registry::{AgentConfig, AgentConfigModel};
use crate::text;
use crate::text::{copy_opt, decimal_text};

pub mod laws;

verus! {

/// What an update changes of a registration; what it does not name stays.
#[derive(Debug)]
pub struct UpdateOptions {
    pub handler: Option<String>,
    pub max_concurrency: Option<u32>,
    pub cwd: Option<String>,
    pub enable: bool,
    pub disable: bool,
}

/// A registration with the changes of an update.
pub open spec fn updated(c: AgentConfigModel, o: UpdateOptions) -> AgentConfigModel {
    AgentConfigModel {
        agent_id: c.agent_id,
        handler: match o.handler {
            Some(h) => h@,
            None => c.handler,
        },
        max_concurrency: match o.max_concurrency {
            Some(n) => n as nat,
            None => c.max_concurrency,
        },
        working_directory: match o.cwd {
            Some(d) => Some(d@),
            None => c.working_directory,
        },
        enabled: if o.enable {
            true
        } else if o.disable {
            false
        } else {
            c.enabled
        },
    }
}

/// A new registration, enabled.
pub fn new_config(id: AgentId, handler: String, max_concurrency: u32, cwd: Option<String>) -> (c:
    AgentConfig)
    ensures
        c@ == (AgentConfigModel {
            agent_id: id@,
            handler: handler@,
            max_concurrency: max_concurrency as nat,
            working_directory: text::opt_view(cwd),
            enabled: true,
        }),
{
    AgentConfig { agent_id: id, handler, max_concurrency, working_directory: cwd, enabled: true }
}

/// The registration to send for an update, made from the listed one; an agent
/// that is not listed cannot be updated.
pub fn updated_config(agents: &Vec<AgentConfig>, id: &AgentId, options: &UpdateOptions) -> (r:
    Result<AgentConfig, String>)
    ensures
        match r {
            Ok(c) => exists|i: int|
                0 <= i < agents@.len() && (#[trigger] agents@[i])@.agent_id == id@ && c@
                    == updated(agents@[i]@, *options),
            Err(e) => e@ == registry::not_registered(id@) && forall|i: int|
                0 <= i < agents@.len() ==> (#[trigger] agents@[i])@.agent_id != id@,
        },
{
    for i in 0..agents.len()
        invariant
            forall|j: int| 0 <= j < i ==> (#[trigger] agents@[j])@.agent_id != id@,
    {
        let c = &agents[i];
        if c.agent_id.same(id) {
            let handler = match &options.handler {
                Some(h) => h.clone(),
                None => c.handler.clone(),
            };
            let max_concurrency = match options.max_concurrency {
                Some(n) => n,
                None => c.max_concurrency,
            };
            let working_directory = match &options.cwd {
                Some(d) => Some(d.clone()),
                None => copy_opt(&c.working_directory),
            };
            let enabled = if options.enable {
                true
            } else if options.disable {
                false
            } else {
                c.enabled
            };
            let new = AgentConfig {
                agent_id: c.agent_id.clone(),
                handler,
                max_concurrency,
                working_directory,
                enabled,
            };
            assert(new@ == updated(agents@[i as int]@, *options));
            return Ok(new);
        }
    }
    let mut m = "agent ".to_owned();
    m.append(id.as_str());
    m.append(" is not registered");
    Err(m)
}

/// What an answer means for the client: success, or what to tell the operator.
pub fn outcome(response: &Response) -> (r: Result<(), String>)
    ensures
        match r {
            Ok(_) => response.ok,
            Err(e) => !response.ok && e@ == match response.error {
                Some(m) => m@,
                None => "unknown error"@,
            },
        },
{
    if response.ok {
        Ok(())
    } else {
        match &response.error {
            Some(m) => Err(m.clone()),
            None => Err("unknown error".to_owned()),
        }
    }
}

/// What to tell the operator where nobody listens on the control socket.
pub fn connection_error(path: &str, cause: &str) -> (m: String)
    ensures
        m@ == "cannot connect to "@ + path@ + ": "@ + cause@ + " (is agentd running?)"@,
{
    let mut m = "cannot connect to ".to_owned();
    m.append(path);
    m.append(": ");
    m.append(cause);
    m.append(" (is agentd running?)");
    m
}

// ---------------------------------------------------------------------------
// Tables
// ---------------------------------------------------------------------------

/// So many blanks.
pub open spec fn blanks(n: nat) -> Seq<char> {
    Seq::new(n, |i: int| ' ')
}

/// A cell of a table: a text filled up to a width, with at least one blank
/// behind it.
pub open spec fn cell(s: Seq<char>, width: nat) -> Seq<char> {
    s + blanks(
        if s.len() < width {
            (width - s.len()) as nat
        } else {
            1
        },
    )
}

fn append_cell(out: &mut String, s: &str, width: usize)
    ensures
        final(out)@ == old(out)@ + cell(s@, width as nat),
{
    let len: usize = text::chars_of(s).len();
    let fill: usize = if len < width {
        width - len
    } else {
        1
    };
    out.append(s);
    let ghost head = out@;
    assert(head =~= head + blanks(0));
    for i in 0..fill
        invariant
            out@ == head + blanks(i as nat),
    {
        out.push(' ');
        assert(out@ =~= head + blanks((i + 1) as nat));
    }
    assert(out@ =~= old(out)@ + cell(s@, width as nat));
}

/// The word for whether an agent is enabled.
pub open spec fn state_of(enabled: bool) -> Seq<char> {
    if enabled {
        "enabled"@
    } else {
        "disabled"@
    }
}

fn state_word(enabled: bool) -> (s: &'static str)
    ensures
        s@ == state_of(enabled),
{
    if enabled {
        "enabled"
    } else {
        "disabled"
    }
}

/// One agent of the list.
pub open spec fn list_row(c: AgentConfigModel) -> Seq<char> {
    cell(c.agent_id, 25) + cell(state_of(c.enabled), 9) + cell(text::decimal(c.max_concurrency), 6)
        + c.handler + "\n"@
}

/// The first `n` agents of the list.
pub open spec fn list_rows(agents: Seq<AgentConfig>, n: int) -> Seq<char>
    decreases n,
{
    if n <= 0 {
        Seq::empty()
    } else {
        list_rows(agents, n - 1) + list_row(agents[n - 1]@)
    }
}

/// The head of the list.
pub open spec fn list_head() -> Seq<char> {
    cell("AGENT"@, 25) + cell("STATE"@, 9) + cell("CONC"@, 6) + "HANDLER\n"@
}

fn render_list_row(c: &AgentConfig) -> (row: String)
    ensures
        row@ == list_row(c@),
{
    let mut row = String::new();
    append_cell(&mut row, c.agent_id.as_str(), 25);
    assert(row@ =~= cell(c@.agent_id, 25));
    append_cell(&mut row, state_word(c.enabled), 9);
    append_cell(&mut row, decimal_text(c.max_concurrency as u64).as_str(), 6);
    row.append(c.handler.as_str());
    row.append("\n");
    row
}

/// The list of registered agents as a table.
pub fn render_list(agents: &Vec<AgentConfig>) -> (out: String)
    ensures
        out@ == if agents@.len() == 0 {
            "no agents\n"@
        } else {
            list_head() + list_rows(agents@, agents@.len() as int)
        },
{
    if agents.len() == 0 {
        return "no agents\n".to_owned();
    }
    let mut out = String::new();
    append_cell(&mut out, "AGENT", 25);
    append_cell(&mut out, "STATE", 9);
    append_cell(&mut out, "CONC", 6);
    out.append("HANDLER\n");
    assert(out@ =~= list_head());
    for i in 0..agents.len()
        invariant
            out@ == list_head() + list_rows(agents@, i as int),
    {
        let ghost rows = list_rows(agents@, i as int);
        let ghost row = list_row(agents@[i as int]@);
        out.append(render_list_row(&agents[i]).as_str());
        assert(list_head() + rows + row =~= list_head() + (rows + row));
    }
    out
}

/// A number that may be unknown.
pub open spec fn known(n: Option<u64>) -> Seq<char> {
    match n {
        Some(k) => text::decimal(k as nat),
        None => "-"@,
    }
}

fn known_text(n: Option<u64>) -> (s: String)
    ensures
        s@ == known(n),
{
    match n {
        Some(k) => decimal_text(k),
        None => "-".to_owned(),
    }
}

/// One agent of the status.
pub open spec fn status_row(a: AgentStatus) -> Seq<char> {
    cell(a.agent_id@, 25) + cell(state_of(a.enabled), 9) + cell(
        text::decimal(a.max_concurrency as nat),
        6,
    ) + cell(text::decimal(a.in_flight as nat), 10) + cell(known(a.num_pending), 9) + known(
        a.num_ack_pending,
    ) + "\n"@
}

/// The first `n` agents of the status.
pub open spec fn status_rows(agents: Seq<AgentStatus>, n: int) -> Seq<char>
    decreases n,
{
    if n <= 0 {
        Seq::empty()
    } else {
        status_rows(agents, n - 1) + status_row(agents[n - 1])
    }
}

/// The head of the status.
pub open spec fn status_head(version: Seq<char>, connected: bool) -> Seq<char> {
    "daemon: v"@ + version + "\nnats: "@ + (if connected {
        "connected\n"@
    } else {
        "disconnected\n"@
    }) + cell("AGENT"@, 25) + cell("STATE"@, 9) + cell("CONC"@, 6) + cell("INFLIGHT"@, 10) + cell(
        "PENDING"@,
        9,
    ) + "ACKPEND\n"@
}

fn render_status_row(a: &AgentStatus) -> (row: String)
    ensures
        row@ == status_row(*a),
{
    let mut row = String::new();
    append_cell(&mut row, a.agent_id.as_str(), 25);
    assert(row@ =~= cell(a.agent_id@, 25));
    append_cell(&mut row, state_word(a.enabled), 9);
    append_cell(&mut row, decimal_text(a.max_concurrency as u64).as_str(), 6);
    append_cell(&mut row, decimal_text(a.in_flight as u64).as_str(), 10);
    append_cell(&mut row, known_text(a.num_pending).as_str(), 9);
    row.append(known_text(a.num_ack_pending).as_str());
    row.append("\n");
    row
}

/// The status of the daemon as a table.
pub fn render_status(report: &StatusReport) -> (out: String)
    ensures
        out@ == status_head(report.daemon_version@, report.nats_connected) + status_rows(
            report.agents@,
            report.agents@.len() as int,
        ),
{
    let mut out = "daemon: v".to_owned();
    out.append(report.daemon_version.as_str());
    out.append("\nnats: ");
    if report.nats_connected {
        out.append("connected\n");
    } else {
        out.append("disconnected\n");
    }
    append_cell(&mut out, "AGENT", 25);
    append_cell(&mut out, "STATE", 9);
    append_cell(&mut out, "CONC", 6);
    append_cell(&mut out, "INFLIGHT", 10);
    append_cell(&mut out, "PENDING", 9);
    out.append("ACKPEND\n");
    let ghost head = status_head(report.daemon_version@, report.nats_connected);
    assert(out@ =~= head + status_rows(report.agents@, 0));
    for i in 0..report.agents.len()
        invariant
            out@ == head + status_rows(report.agents@, i as int),
    {
        let ghost rows = status_rows(report.agents@, i as int);
        let ghost row = status_row(report.agents@[i as int]);
        out.append(render_status_row(&report.agents[i]).as_str());
        assert(head + rows + row =~= head + (rows + row));
    }
    out
}

} // verus!
