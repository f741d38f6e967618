//! Laws of the control client: what it sends, and what its tables show where.

use vstd::prelude::*;

use crate::agent_id::AgentId;
use crate::control::{AgentStatus, Response, StatusReport};
use crate::ctl;
use crate::ctl::UpdateOptions;
use crate::registry::{AgentConfig, AgentConfigModel};
use crate::text;

verus! {

// ---------------------------------------------------------------------------
// Requests
// ---------------------------------------------------------------------------

/// A new registration is what was given, and enabled.
pub proof fn lemma_new_config(
    id: AgentId,
    handler: String,
    slots: u32,
    cwd: Option<String>,
    c: AgentConfig,
)
    requires
        call_ensures(ctl::new_config, (id, handler, slots, cwd), c),
    ensures
        c@.agent_id == id@,
        c@.handler == handler@,
        c@.max_concurrency == slots,
        c@.working_directory is Some == cwd is Some,
        cwd is Some ==> c@.working_directory->0 == cwd->0@,
        c@.enabled,
{
}

/// An update of a registration sets what it names and keeps what it does not.
pub proof fn lemma_updated_fields(c: AgentConfigModel, o: UpdateOptions)
    ensures
        ({
            let u = ctl::updated(c, o);
            &&& u.agent_id == c.agent_id
            &&& o.handler is Some ==> u.handler == o.handler->0@
            &&& o.handler is None ==> u.handler == c.handler
            &&& o.max_concurrency is Some ==> u.max_concurrency == o.max_concurrency->0
            &&& o.max_concurrency is None ==> u.max_concurrency == c.max_concurrency
            &&& o.cwd is Some ==> u.working_directory is Some && u.working_directory->0
                == o.cwd->0@
            &&& o.cwd is None ==> u.working_directory == c.working_directory
            &&& o.enable ==> u.enabled
            &&& o.disable && !o.enable ==> !u.enabled
            &&& !o.enable && !o.disable ==> u.enabled == c.enabled
        }),
{
}

/// An update is made from the listed registration of the agent, and there is
/// one exactly where the agent is listed.
pub proof fn lemma_updated_config(
    agents: Vec<AgentConfig>,
    id: AgentId,
    o: UpdateOptions,
    r: Result<AgentConfig, String>,
)
    requires
        call_ensures(ctl::updated_config, (&agents, &id, &o), r),
    ensures
        r is Ok <==> exists|i: int|
            0 <= i < agents@.len() && (#[trigger] agents@[i])@.agent_id == id@,
        r is Ok ==> r->Ok_0@.agent_id == id@,
        r is Ok ==> exists|i: int|
            0 <= i < agents@.len() && (#[trigger] agents@[i])@.agent_id == id@ && (
            o.max_concurrency is None ==> r->Ok_0@.max_concurrency == agents@[i]@.max_concurrency)
                && (o.handler is None ==> r->Ok_0@.handler == agents@[i]@.handler) && (
            o.cwd is None ==> r->Ok_0@.working_directory == agents@[i]@.working_directory) && (
            !o.enable && !o.disable ==> r->Ok_0@.enabled == agents@[i]@.enabled),
        r is Ok && o.max_concurrency is Some ==> r->Ok_0@.max_concurrency == o.max_concurrency->0,
        r is Ok && o.handler is Some ==> r->Ok_0@.handler == o.handler->0@,
        r is Ok && o.cwd is Some ==> r->Ok_0@.working_directory == Some(o.cwd->0@),
        r is Ok && o.enable ==> r->Ok_0@.enabled,
        r is Ok && o.disable && !o.enable ==> !r->Ok_0@.enabled,
{
    if r is Ok {
        let i = choose|i: int|
            0 <= i < agents@.len() && (#[trigger] agents@[i])@.agent_id == id@ && r->Ok_0@
                == ctl::updated(agents@[i]@, o);
        lemma_updated_fields(agents@[i]@, o);
    }
}

/// A command succeeds exactly where the answer does, and says else what the
/// answer says.
pub proof fn lemma_outcome(response: Response, r: Result<(), String>)
    requires
        call_ensures(ctl::outcome, (&response,), r),
    ensures
        r is Ok <==> response.ok,
        r is Err && response.error is Some ==> r->Err_0@ == response.error->0@,
        r is Err && response.error is None ==> r->Err_0@ == "unknown error"@,
{
}

/// A client that finds nobody says where it looked and why it failed.
pub proof fn lemma_connection_error(path: &str, cause: &str, m: String)
    requires
        call_ensures(ctl::connection_error, (path, cause), m),
    ensures
        m@ == "cannot connect to "@ + path@ + ": "@ + cause@ + " (is agentd running?)"@,
{
}

// ---------------------------------------------------------------------------
// Tables
// ---------------------------------------------------------------------------

/// Whether a text stands in another at a place.
pub open spec fn stands_at(s: Seq<char>, at: int, t: Seq<char>) -> bool {
    0 <= at && at + t.len() <= s.len() && s.subrange(at, at + t.len()) == t
}

/// Whether a cell of a line holds a text: the text stands there, with a blank
/// or the end of the line behind it.
pub open spec fn holds_at(line: Seq<char>, at: int, t: Seq<char>) -> bool {
    &&& stands_at(line, at, t)
    &&& at + t.len() < line.len()
    &&& line[at + t.len()] == ' ' || line[at + t.len()] == '\n'
}

/// Whether a cell of a line holds a number that may be unknown: its digits, or
/// a dash.
pub open spec fn shows_number(line: Seq<char>, at: int, n: Option<u64>) -> bool {
    exists|t: Seq<char>|
        #[trigger] holds_at(line, at, t) && t.len() > 0 && match n {
            Some(k) => text::laws::value_of(t) == k && forall|i: int|
                0 <= i < t.len() ==> '0' as int <= #[trigger] t[i] as int <= '9' as int,
            None => t == seq!['-'],
        }
}

proof fn lemma_cell(s: Seq<char>, width: nat)
    requires
        s.len() < width,
    ensures
        ctl::cell(s, width).len() == width,
        forall|i: int| 0 <= i < s.len() ==> ctl::cell(s, width)[i] == s[i],
        forall|i: int| s.len() <= i < width ==> ctl::cell(s, width)[i] == ' ',
{
}

/// A cell is as wide as its column where the text leaves room for a blank; its
/// text is followed by blanks alone, at least one.
pub proof fn lemma_cell_filled(s: Seq<char>, width: nat)
    ensures
        ctl::cell(s, width).len() == if s.len() < width {
            width
        } else {
            s.len() + 1
        },
        ctl::cell(s, width).take(s.len() as int) == s,
        forall|i: int|
            s.len() <= i < ctl::cell(s, width).len() ==> #[trigger] ctl::cell(s, width)[i] == ' ',
{
    assert(ctl::cell(s, width).take(s.len() as int) =~= s);
}

/// The line of the head of the status that names its columns, and where each
/// begins.
pub proof fn lemma_status_head(version: Seq<char>, connected: bool)
    ensures
        ({
            let head = ctl::status_head(version, connected);
            let line = head.skip(head.len() - 67);
            &&& head.len() > 67
            &&& head[head.len() - 68] == '\n'
            &&& line[66] == '\n'
            &&& stands_at(line, 0, "AGENT"@)
            &&& stands_at(line, 25, "STATE"@)
            &&& stands_at(line, 34, "CONC"@)
            &&& stands_at(line, 40, "INFLIGHT"@)
            &&& stands_at(line, 50, "PENDING"@)
            &&& stands_at(line, 59, "ACKPEND"@)
            &&& stands_at(head, 0, "daemon: v"@ + version + "\nnats: "@)
            &&& stands_at(head, 16int + version.len(), if connected {
                "connected\n"@
            } else {
                "disconnected\n"@
            })
        }),
{
    reveal_strlit("AGENT");
    reveal_strlit("STATE");
    reveal_strlit("CONC");
    reveal_strlit("INFLIGHT");
    reveal_strlit("PENDING");
    reveal_strlit("ACKPEND\n");
    reveal_strlit("ACKPEND");
    reveal_strlit("connected\n");
    reveal_strlit("disconnected\n");
    reveal_strlit("daemon: v");
    reveal_strlit("\nnats: ");
    lemma_cell("AGENT"@, 25);
    lemma_cell("STATE"@, 9);
    lemma_cell("CONC"@, 6);
    lemma_cell("INFLIGHT"@, 10);
    lemma_cell("PENDING"@, 9);
    let head = ctl::status_head(version, connected);
    let line = head.skip(head.len() - 67);
    let word = if connected {
        "connected\n"@
    } else {
        "disconnected\n"@
    };
    let top = "daemon: v"@ + version + "\nnats: "@ + word;
    let a = ctl::cell("AGENT"@, 25);
    let b = ctl::cell("STATE"@, 9);
    let c = ctl::cell("CONC"@, 6);
    let d = ctl::cell("INFLIGHT"@, 10);
    let e = ctl::cell("PENDING"@, 9);
    let f = "ACKPEND\n"@;
    assert(head =~= top + (a + b + c + d + e + f));
    assert(line =~= a + b + c + d + e + f);
    assert(line.subrange(0, 5) =~= "AGENT"@);
    assert(line.subrange(25, 30) =~= "STATE"@);
    assert(line.subrange(34, 38) =~= "CONC"@);
    assert(line.subrange(40, 48) =~= "INFLIGHT"@);
    assert(line.subrange(50, 57) =~= "PENDING"@);
    assert(line.subrange(59, 66) =~= "ACKPEND"@);
    assert(head.subrange(0, 16int + version.len()) =~= "daemon: v"@ + version + "\nnats: "@);
    assert(head.subrange(16int + version.len(), 16int + version.len() + word.len()) =~= word);
    assert(top.last() == '\n');
}

proof fn lemma_known(n: Option<u64>)
    ensures
        ctl::known(n).len() > 0,
        match n {
            Some(k) => text::laws::value_of(ctl::known(n)) == k && forall|i: int|
                0 <= i < ctl::known(n).len() ==> '0' as int <= #[trigger] ctl::known(n)[i] as int
                    <= '9' as int,
            None => ctl::known(n) == seq!['-'],
        },
{
    match n {
        Some(k) => {
            text::laws::lemma_decimal_denotes(k as nat);
        },
        None => {
            reveal_strlit("-");
            assert(ctl::known(n) =~= seq!['-']);
        },
    }
}

/// In a row of the status every cell holds what the head names at its place:
/// the agent, whether it is enabled, its slots, the events being handled, those
/// that wait at the relay and those that are not yet acknowledged. So it is
/// where the texts fit their columns.
pub proof fn lemma_status_columns(a: AgentStatus)
    requires
        a.agent_id@.len() < 25,
        text::decimal(a.max_concurrency as nat).len() < 6,
        text::decimal(a.in_flight as nat).len() < 10,
        a.num_pending is Some ==> text::decimal(a.num_pending->0 as nat).len() < 9,
    ensures
        ({
            let row = ctl::status_row(a);
            &&& holds_at(row, 0, a.agent_id@)
            &&& holds_at(row, 25, if a.enabled {
                "enabled"@
            } else {
                "disabled"@
            })
            &&& shows_number(row, 34, Some(a.max_concurrency as u64))
            &&& shows_number(row, 40, Some(a.in_flight as u64))
            &&& shows_number(row, 50, a.num_pending)
            &&& shows_number(row, 59, a.num_ack_pending)
            &&& row.last() == '\n'
        }),
{
    reveal_strlit("enabled");
    reveal_strlit("disabled");
    reveal_strlit("\n");
    reveal_strlit("-");
    let state = ctl::state_of(a.enabled);
    let conc = text::decimal(a.max_concurrency as nat);
    let flight = text::decimal(a.in_flight as nat);
    let pending = ctl::known(a.num_pending);
    let acks = ctl::known(a.num_ack_pending);
    lemma_cell(a.agent_id@, 25);
    lemma_cell(state, 9);
    lemma_cell(conc, 6);
    lemma_cell(flight, 10);
    lemma_cell(pending, 9);
    lemma_known(Some(a.max_concurrency as u64));
    lemma_known(Some(a.in_flight as u64));
    lemma_known(a.num_pending);
    lemma_known(a.num_ack_pending);
    let row = ctl::status_row(a);
    assert(row =~= ctl::cell(a.agent_id@, 25) + ctl::cell(state, 9) + ctl::cell(conc, 6)
        + ctl::cell(flight, 10) + ctl::cell(pending, 9) + acks + "\n"@);
    assert(row.subrange(0, a.agent_id@.len() as int) =~= a.agent_id@);
    assert(row.subrange(25, 25int + state.len()) =~= state);
    assert(row.subrange(34, 34int + conc.len()) =~= conc);
    assert(row.subrange(40, 40int + flight.len()) =~= flight);
    assert(row.subrange(50, 50int + pending.len()) =~= pending);
    assert(row.subrange(59, 59int + acks.len()) =~= acks);
    assert(holds_at(row, 34, conc));
    assert(holds_at(row, 40, flight));
    assert(holds_at(row, 50, pending));
    assert(holds_at(row, 59, acks));
}

/// What a row of the status shows, from the first column to the last.
pub open spec fn shown(a: AgentStatus) -> Seq<Seq<char>> {
    seq![
        a.agent_id@,
        if a.enabled {
            "enabled"@
        } else {
            "disabled"@
        },
        text::decimal(a.max_concurrency as nat),
        text::decimal(a.in_flight as nat),
        match a.num_pending {
            Some(n) => text::decimal(n as nat),
            None => "-"@,
        },
        match a.num_ack_pending {
            Some(n) => text::decimal(n as nat),
            None => "-"@,
        },
    ]
}

/// However long its texts are, a row of the status has them all, in the order
/// of the columns, with blanks between and the end of the line behind.
pub proof fn lemma_status_row_order(a: AgentStatus)
    ensures
        exists|b1: nat, b2: nat, b3: nat, b4: nat, b5: nat|
            b1 > 0 && b2 > 0 && b3 > 0 && b4 > 0 && b5 > 0 && #[trigger] row_with(
                shown(a),
                b1,
                b2,
                b3,
                b4,
                b5,
            ) == ctl::status_row(a),
{
    reveal_strlit("\n");
    let s = shown(a);
    let b1 = room(s[0], 25);
    let b2 = room(s[1], 9);
    let b3 = room(s[2], 6);
    let b4 = room(s[3], 10);
    let b5 = room(s[4], 9);
    assert(row_with(s, b1, b2, b3, b4, b5) =~= ctl::status_row(a));
}

/// The blanks that fill a text up to a width.
pub open spec fn room(s: Seq<char>, width: nat) -> nat {
    if s.len() < width {
        (width - s.len()) as nat
    } else {
        1
    }
}

/// Six texts in a line, with so many blanks between them.
pub open spec fn row_with(
    s: Seq<Seq<char>>,
    b1: nat,
    b2: nat,
    b3: nat,
    b4: nat,
    b5: nat,
) -> Seq<char> {
    s[0] + ctl::blanks(b1) + s[1] + ctl::blanks(b2) + s[2] + ctl::blanks(b3) + s[3] + ctl::blanks(
        b4,
    ) + s[4] + ctl::blanks(b5) + s[5] + seq!['\n']
}

/// In a row of the list every cell holds what the head names at its place.
pub proof fn lemma_list_columns(c: AgentConfigModel)
    requires
        c.agent_id.len() < 25,
        text::decimal(c.max_concurrency).len() < 6,
    ensures
        ({
            let head = ctl::list_head();
            let row = ctl::list_row(c);
            &&& stands_at(head, 0, "AGENT"@)
            &&& stands_at(head, 25, "STATE"@)
            &&& stands_at(head, 34, "CONC"@)
            &&& stands_at(head, 40, "HANDLER\n"@)
            &&& head.len() == 48
            &&& holds_at(row, 0, c.agent_id)
            &&& holds_at(row, 25, if c.enabled {
                "enabled"@
            } else {
                "disabled"@
            })
            &&& holds_at(row, 34, text::decimal(c.max_concurrency))
            &&& text::laws::value_of(text::decimal(c.max_concurrency)) == c.max_concurrency
            &&& holds_at(row, 40, c.handler)
            &&& row.len() == 40 + c.handler.len() + 1
        }),
{
    reveal_strlit("AGENT");
    reveal_strlit("STATE");
    reveal_strlit("CONC");
    reveal_strlit("HANDLER\n");
    reveal_strlit("enabled");
    reveal_strlit("disabled");
    reveal_strlit("\n");
    let state = ctl::state_of(c.enabled);
    let conc = text::decimal(c.max_concurrency);
    text::laws::lemma_decimal_denotes(c.max_concurrency);
    lemma_cell("AGENT"@, 25);
    lemma_cell("STATE"@, 9);
    lemma_cell("CONC"@, 6);
    lemma_cell(c.agent_id, 25);
    lemma_cell(state, 9);
    lemma_cell(conc, 6);
    let head = ctl::list_head();
    let row = ctl::list_row(c);
    assert(head.subrange(0, 5) =~= "AGENT"@);
    assert(head.subrange(25, 30) =~= "STATE"@);
    assert(head.subrange(34, 38) =~= "CONC"@);
    assert(head.subrange(40, 48) =~= "HANDLER\n"@);
    assert(row.subrange(0, c.agent_id.len() as int) =~= c.agent_id);
    assert(row.subrange(25, 25int + state.len()) =~= state);
    assert(row.subrange(34, 34int + conc.len()) =~= conc);
    assert(row.subrange(40, 40int + c.handler.len()) =~= c.handler);
}

proof fn lemma_status_rows_at(agents: Seq<AgentStatus>, n: int, i: int)
    requires
        0 <= i < n <= agents.len(),
    ensures
        stands_at(
            ctl::status_rows(agents, n),
            ctl::status_rows(agents, i).len() as int,
            ctl::status_row(agents[i]),
        ),
        ctl::status_rows(agents, i).len() + ctl::status_row(agents[i]).len() == ctl::status_rows(
            agents,
            i + 1,
        ).len(),
    decreases n - i,
{
    if i + 1 == n {
        let all = ctl::status_rows(agents, n);
        let at = ctl::status_rows(agents, i).len() as int;
        assert(all.subrange(at, all.len() as int) =~= ctl::status_row(agents[i]));
    } else {
        lemma_status_rows_grow(agents, n - 1);
        lemma_status_rows_at(agents, n - 1, i);
        let less = ctl::status_rows(agents, n - 1);
        let all = ctl::status_rows(agents, n);
        let at = ctl::status_rows(agents, i).len() as int;
        let end = at + ctl::status_row(agents[i]).len();
        assert(all.subrange(at, end) =~= less.subrange(at, end));
    }
}

proof fn lemma_status_rows_grow(agents: Seq<AgentStatus>, n: int)
    ensures
        ctl::status_rows(agents, n + 1).len() >= ctl::status_rows(agents, n).len(),
{
}

/// What the status shows: the head, and behind it a row for each agent, in
/// their order, one directly behind the other.
pub proof fn lemma_status_shown(report: StatusReport, out: String, i: int)
    requires
        call_ensures(ctl::render_status, (&report,), out),
        0 <= i < report.agents@.len(),
    ensures
        ({
            let head = ctl::status_head(report.daemon_version@, report.nats_connected);
            let at = head.len() + ctl::status_rows(report.agents@, i).len();
            &&& stands_at(out@, 0, head)
            &&& stands_at(out@, at as int, ctl::status_row(report.agents@[i]))
            &&& i == 0 ==> at == head.len()
            &&& i + 1 == report.agents@.len() ==> out@.len() == at + ctl::status_row(
                report.agents@[i],
            ).len()
            &&& at + ctl::status_row(report.agents@[i]).len() == head.len() + ctl::status_rows(
                report.agents@,
                i + 1,
            ).len()
        }),
{
    let agents = report.agents@;
    let n = agents.len() as int;
    let head = ctl::status_head(report.daemon_version@, report.nats_connected);
    let rows = ctl::status_rows(agents, n);
    let at = ctl::status_rows(agents, i).len() as int;
    lemma_status_rows_at(agents, n, i);
    let row = ctl::status_row(agents[i]);
    assert(out@ =~= head + rows);
    assert(out@.subrange(0, head.len() as int) =~= head);
    assert(out@.subrange(head.len() + at, head.len() + at + row.len()) =~= rows.subrange(
        at,
        at + row.len(),
    ));
}

proof fn lemma_list_rows_at(agents: Seq<AgentConfig>, n: int, i: int)
    requires
        0 <= i < n <= agents.len(),
    ensures
        stands_at(
            ctl::list_rows(agents, n),
            ctl::list_rows(agents, i).len() as int,
            ctl::list_row(agents[i]@),
        ),
        ctl::list_rows(agents, i).len() + ctl::list_row(agents[i]@).len() == ctl::list_rows(
            agents,
            i + 1,
        ).len(),
    decreases n - i,
{
    if i + 1 == n {
        let all = ctl::list_rows(agents, n);
        let at = ctl::list_rows(agents, i).len() as int;
        assert(all.subrange(at, all.len() as int) =~= ctl::list_row(agents[i]@));
    } else {
        lemma_list_rows_at(agents, n - 1, i);
        let less = ctl::list_rows(agents, n - 1);
        let all = ctl::list_rows(agents, n);
        let at = ctl::list_rows(agents, i).len() as int;
        let end = at + ctl::list_row(agents[i]@).len();
        assert(all.subrange(at, end) =~= less.subrange(at, end));
    }
}

/// What the list shows: where there are agents the head, and behind it a row for
/// each, in their order, one directly behind the other; else that there are
/// none.
pub proof fn lemma_list_shown(agents: Vec<AgentConfig>, out: String, i: int)
    requires
        call_ensures(ctl::render_list, (&agents,), out),
    ensures
        agents@.len() == 0 ==> out@ == "no agents\n"@,
        0 <= i < agents@.len() ==> ({
            let head = ctl::list_head();
            let at = head.len() + ctl::list_rows(agents@, i).len();
            &&& stands_at(out@, 0, head)
            &&& stands_at(out@, at as int, ctl::list_row(agents@[i]@))
            &&& i == 0 ==> at == head.len()
            &&& i + 1 == agents@.len() ==> out@.len() == at + ctl::list_row(agents@[i]@).len()
            &&& at + ctl::list_row(agents@[i]@).len() == head.len() + ctl::list_rows(
                agents@,
                i + 1,
            ).len()
        }),
{
    if 0 <= i < agents@.len() {
        let n = agents@.len() as int;
        let head = ctl::list_head();
        let rows = ctl::list_rows(agents@, n);
        let at = ctl::list_rows(agents@, i).len() as int;
        lemma_list_rows_at(agents@, n, i);
        let row = ctl::list_row(agents@[i]@);
        assert(out@ =~= head + rows);
        assert(out@.subrange(0, head.len() as int) =~= head);
        assert(out@.subrange(head.len() + at, head.len() + at + row.len()) =~= rows.subrange(
            at,
            at + row.len(),
        ));
    }
}

} // verus!
