//! How a registration is written to disk: into a temporary file beside the
//! real one, which then takes its place in one move.
//!
//! The steps are decided here and performed by the caller, who hands back how
//! each went. The real file is touched by nothing but the move, and the move
//! comes only after the temporary file was written and synced.

use vstd::prelude::*;
use vstd::string::*;

use crate::agent_id::AgentId;
use crate::error::AgentdError;
use crate::registry;
use crate::registry::Registry;
use crate::text;
use crate::text::{append_decimal, join};

pub mod laws;

verus! {

/// What to do next.
#[derive(Debug, Clone, Copy, PartialEq, Eq, Structural)]
pub enum Step {
    /// Create the directory, and its parents.
    CreateDir,
    /// Encode the registration.
    Serialize,
    /// Write it to the temporary file.
    WriteTemp,
    /// Open the temporary file to sync it.
    OpenTemp,
    /// Sync the temporary file.
    SyncTemp,
    /// Move the temporary file to its place.
    Rename,
    /// Sync the directory. How that goes does not matter.
    SyncDir,
    /// The registration is on disk.
    Done,
}

/// The names that one write works with.
#[derive(Debug)]
pub struct Persist {
    pub dir: String,
    pub agent: AgentId,
    /// The file that is written first.
    pub temp: String,
    /// The file that the registration ends up in.
    pub target: String,
}

/// The name of the temporary file.
pub open spec fn temp_name(id: Seq<char>, pid: nat) -> Seq<char> {
    "."@ + id + "."@ + text::decimal(pid) + ".tmp"@
}

/// The step after `step`, or what to say where it failed.
pub open spec fn next_step(p: Persist, step: Step, outcome: Result<(), String>) -> Result<
    Step,
    Seq<char>,
> {
    match (step, outcome) {
        (Step::CreateDir, Ok(_)) => Ok(Step::Serialize),
        (Step::CreateDir, Err(e)) => Err("cannot create "@ + p.dir@ + ": "@ + e@),
        (Step::Serialize, Ok(_)) => Ok(Step::WriteTemp),
        (Step::Serialize, Err(e)) => Err("cannot serialize "@ + p.agent@ + ": "@ + e@),
        (Step::WriteTemp, Ok(_)) => Ok(Step::OpenTemp),
        (Step::WriteTemp, Err(e)) => Err("cannot write "@ + p.temp@ + ": "@ + e@),
        (Step::OpenTemp, Ok(_)) => Ok(Step::SyncTemp),
        (Step::OpenTemp, Err(e)) => Err("cannot open "@ + p.temp@ + " for fsync: "@ + e@),
        (Step::SyncTemp, Ok(_)) => Ok(Step::Rename),
        (Step::SyncTemp, Err(e)) => Err("fsync failed for "@ + p.temp@ + ": "@ + e@),
        (Step::Rename, Ok(_)) => Ok(Step::SyncDir),
        (Step::Rename, Err(e)) => Err(
            "cannot rename "@ + p.temp@ + " -> "@ + p.target@ + ": "@ + e@,
        ),
        (Step::SyncDir, _) => Ok(Step::Done),
        (Step::Done, _) => Ok(Step::Done),
    }
}

impl Persist {
    /// The names for writing one agent's registration from a process.
    pub fn new(registry: &Registry, agent: &AgentId, pid: u32) -> (p: Persist)
        ensures
            p.dir@ == registry.directory(),
            p.agent@ == agent@,
            p.temp@ == text::joined(registry.directory(), temp_name(agent@, pid as nat)),
            p.target@ == registry::file_of(registry.directory(), agent@),
    {
        let mut name = ".".to_owned();
        name.append(agent.as_str());
        name.append(".");
        append_decimal(&mut name, pid as u64);
        name.append(".tmp");
        Persist {
            dir: registry.dir().to_owned(),
            agent: agent.clone(),
            temp: join(registry.dir(), name.as_str()),
            target: registry.file_path(agent),
        }
    }

    /// What to do first: the directory is created where it is missing.
    pub fn first(&self, dir_exists: bool) -> (s: Step)
        ensures
            s == if dir_exists {
                Step::Serialize
            } else {
                Step::CreateDir
            },
    {
        if dir_exists {
            Step::Serialize
        } else {
            Step::CreateDir
        }
    }

    /// What to do after a step, given how it went. A step that failed ends the
    /// write, except the last sync.
    pub fn after(&self, step: Step, outcome: Result<(), String>) -> (r: Result<Step, AgentdError>)
        ensures
            match next_step(*self, step, outcome) {
                Ok(s) => r == Ok::<Step, AgentdError>(s),
                Err(m) => r matches Err(AgentdError::Config(n)) && n@ == m,
            },
    {
        let e = match outcome {
            Ok(_) => {
                return Ok(
                    match step {
                        Step::CreateDir => Step::Serialize,
                        Step::Serialize => Step::WriteTemp,
                        Step::WriteTemp => Step::OpenTemp,
                        Step::OpenTemp => Step::SyncTemp,
                        Step::SyncTemp => Step::Rename,
                        Step::Rename => Step::SyncDir,
                        Step::SyncDir => Step::Done,
                        Step::Done => Step::Done,
                    },
                );
            },
            Err(e) => e,
        };
        let mut m = String::new();
        match step {
            Step::CreateDir => {
                m.append("cannot create ");
                m.append(self.dir.as_str());
            },
            Step::Serialize => {
                m.append("cannot serialize ");
                m.append(self.agent.as_str());
            },
            Step::WriteTemp => {
                m.append("cannot write ");
                m.append(self.temp.as_str());
            },
            Step::OpenTemp => {
                m.append("cannot open ");
                m.append(self.temp.as_str());
                m.append(" for fsync");
            },
            Step::SyncTemp => {
                m.append("fsync failed for ");
                m.append(self.temp.as_str());
            },
            Step::Rename => {
                m.append("cannot rename ");
                m.append(self.temp.as_str());
                m.append(" -> ");
                m.append(self.target.as_str());
            },
            Step::SyncDir => {
                return Ok(Step::Done);
            },
            Step::Done => {
                return Ok(Step::Done);
            },
        }
        m.append(": ");
        m.append(e.as_str());
        proof {
            let said = next_step(*self, step, Err::<(), String>(e));
            reveal_strlit(" for fsync: ");
            reveal_strlit(" for fsync");
            reveal_strlit(": ");
            assert(" for fsync"@ + ": "@ =~= " for fsync: "@);
            assert(said is Err);
            assert(m@ =~= said->Err_0);
        }
        Err(AgentdError::config(m))
    }
}

// ---------------------------------------------------------------------------
// Laws
// ---------------------------------------------------------------------------

/// The registration's own file is moved into place only after the temporary
/// file was written and synced, and the write is done only after the move
/// succeeded.
pub proof fn lemma_move_comes_last(p: Persist, step: Step, outcome: Result<(), String>)
    ensures
        next_step(p, step, outcome) == Ok::<Step, Seq<char>>(Step::Rename) <==> step
            == Step::SyncTemp && outcome is Ok,
        next_step(p, step, outcome) == Ok::<Step, Seq<char>>(Step::SyncTemp) <==> step
            == Step::OpenTemp && outcome is Ok,
        next_step(p, step, outcome) == Ok::<Step, Seq<char>>(Step::OpenTemp) <==> step
            == Step::WriteTemp && outcome is Ok,
        next_step(p, step, outcome) == Ok::<Step, Seq<char>>(Step::SyncDir) <==> step
            == Step::Rename && outcome is Ok,
        next_step(p, step, outcome) == Ok::<Step, Seq<char>>(Step::Done) <==> step == Step::SyncDir
            || step == Step::Done,
{
}

/// A temporary file left behind is never taken for a registration.
pub proof fn lemma_temp_is_no_registration(id: Seq<char>, pid: nat)
    ensures
        !registry::load::is_agent_file(temp_name(id, pid)),
{
    reveal_strlit(".toml");
    reveal_strlit(".tmp");
    let name = temp_name(id, pid);
    let tail = name.skip(name.len() - ".toml"@.len());
    if registry::load::is_agent_file(name) {
        assert(tail[4] == ".toml"@[4]);
        assert(name[name.len() - 1] == ".tmp"@[3]);
        assert(tail[4] == name[name.len() - 1]);
    }
}

} // verus!
