//! Laws of writing a registration.

use vstd::prelude::*;

use crate::agent_id::AgentId;
use crate::error::AgentdError;
use crate::persist;
use crate::persist::{Persist, Step};
use crate::registry;
use crate::registry::Registry;
use crate::text;

verus! {

/// The temporary file and the real one stand in the registry's directory. The
/// real one is the agent's; the temporary one is hidden, names the agent and the
/// process, and is no registration.
pub proof fn lemma_names(registry: Registry, agent: AgentId, pid: u32, p: Persist)
    requires
        call_ensures(Persist::new, (&registry, &agent, pid), p),
    ensures
        p.dir@ == registry.directory(),
        p.agent@ == agent@,
        p.target@ == text::joined(registry.directory(), agent@ + ".toml"@),
        p.temp@ == text::joined(
            registry.directory(),
            "."@ + agent@ + "."@ + text::decimal(pid as nat) + ".tmp"@,
        ),
        p.temp@ != p.target@,
{
    let temp = "."@ + agent@ + "."@ + text::decimal(pid as nat) + ".tmp"@;
    let name = agent@ + ".toml"@;
    if p.temp@ == p.target@ {
        text::lemma_joined_injective(registry.directory(), temp, name);
        reveal_strlit(".tmp");
        reveal_strlit(".toml");
        assert(temp[temp.len() - 1] == 'p');
        assert(name[name.len() - 1] == 'l');
    }
}

/// Two processes, or two agents, write different temporary files only where
/// their names differ: what a name tells are the agent and the process.
pub proof fn lemma_temp_name(id: Seq<char>, pid: nat)
    ensures
        persist::temp_name(id, pid) == seq!['.'] + id + seq!['.'] + text::decimal(pid) + ".tmp"@,
{
    reveal_strlit(".");
    assert(persist::temp_name(id, pid) =~= seq!['.'] + id + seq!['.'] + text::decimal(pid)
        + ".tmp"@);
}

/// The place of a step.
pub open spec fn place(step: Step) -> int {
    match step {
        Step::CreateDir => 0,
        Step::Serialize => 1,
        Step::WriteTemp => 2,
        Step::OpenTemp => 3,
        Step::SyncTemp => 4,
        Step::Rename => 5,
        Step::SyncDir => 6,
        Step::Done => 7,
    }
}

/// Every step that succeeds leads to the next, and none is left out: encoded,
/// written, opened, synced, moved. A step that fails ends the write with an
/// error that ends in the cause, except the last sync, which does not matter.
pub proof fn lemma_steps(
    p: Persist,
    step: Step,
    outcome: Result<(), String>,
    r: Result<Step, AgentdError>,
)
    requires
        call_ensures(Persist::after, (&p, step, outcome), r),
    ensures
        r is Ok <==> outcome is Ok || step == Step::SyncDir || step == Step::Done,
        r is Ok && step != Step::Done ==> place(r->Ok_0) == place(step) + 1,
        step == Step::Done ==> r->Ok_0 == Step::Done,
        r is Err ==> r->Err_0 is Config && text::has_suffix(
            r->Err_0->Config_0@,
            outcome->Err_0@,
        ),
{
    if r is Err {
        let m = r->Err_0->Config_0@;
        let e = outcome->Err_0@;
        assert(m.skip(m.len() - e.len()) =~= e);
    }
}

/// The directory is created first where it is missing, and only there.
pub proof fn lemma_first_step(p: Persist, dir_present: bool, s: Step)
    requires
        call_ensures(Persist::first, (&p, dir_present), s),
    ensures
        s == Step::CreateDir <==> !dir_present,
        s == Step::Serialize <==> dir_present,
{
}

} // verus!
