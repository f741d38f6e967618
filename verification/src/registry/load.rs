//! Loading the registry from its directory.

use vstd::prelude::*;
use vstd::string::*;

use crate::error::AgentdError;
use crate::files::FileRead;
use crate::logging;
use crate::logging::{text_field, with_one, Level, Record, RecordModel};
use crate::registry;
use crate::registry::{AgentConfig, AgentConfigModel, Registry};
use crate::text;
use crate::text::{glue, join, same_text, strip_suffix};

verus! {

/// One file found in the directory of registrations.
#[derive(Debug)]
pub struct AgentFile {
    pub name: String,
    /// What reading and decoding it gave; of no account where the name is not
    /// one of a registration.
    pub read: FileRead<AgentConfig>,
    /// Whether the handler it names exists.
    pub handler_exists: bool,
    /// Whether the handler it names is executable.
    pub handler_executable: bool,
}

/// One entry of the directory of registrations.
#[derive(Debug)]
pub enum Entry {
    /// The entry could not be read, in the words of the file system.
    Failed(String),
    File(AgentFile),
}

/// The directory of registrations, as far as it could be read.
#[derive(Debug)]
pub enum Listing {
    Missing,
    /// It could not be listed, in the words of the file system.
    Unreadable(String),
    Entries(Vec<Entry>),
}

/// What loading gives: the registry or why there is none, and what to log.
#[derive(Debug)]
pub struct Loaded {
    pub log: Vec<Record>,
    pub outcome: Result<Registry, AgentdError>,
}

/// Whether a file of this name is a registration.
pub open spec fn is_agent_file(name: Seq<char>) -> bool {
    text::has_suffix(name, ".toml"@) && name.len() > ".toml"@.len()
}

/// The agent a file of this name is for.
pub open spec fn stem_of(name: Seq<char>) -> Seq<char> {
    name.take(name.len() - ".toml"@.len())
}

/// The agent an entry declares, if it declares one.
pub open spec fn declared(entry: Entry) -> Option<AgentConfigModel> {
    match entry {
        Entry::File(f) if is_agent_file(f.name@) => match f.read {
            FileRead::Parsed(c) => Some(c@),
            _ => None,
        },
        _ => None,
    }
}

/// The agents that the first `n` entries declare.
pub open spec fn declared_agents(entries: Seq<Entry>, n: int) -> Map<Seq<char>, AgentConfigModel>
    decreases n,
{
    if n <= 0 {
        Map::empty()
    } else {
        match declared(entries[n - 1]) {
            Some(c) => declared_agents(entries, n - 1).insert(c.agent_id, c),
            None => declared_agents(entries, n - 1),
        }
    }
}

/// What is wrong with a declared agent in a file of this name, if anything is.
pub open spec fn declaration_fault(
    path: Seq<char>,
    name: Seq<char>,
    c: AgentConfigModel,
    before: Map<Seq<char>, AgentConfigModel>,
) -> Option<Seq<char>> {
    match registry::config_fault(c) {
        Some(m) => Some(m),
        None => if stem_of(name) != c.agent_id {
            Some(
                "file "@ + path + " declares agent_id "@ + c.agent_id + " but is named "@ + stem_of(
                    name,
                ) + ".toml; filenames must match the agent_id"@,
            )
        } else if before.dom().contains(c.agent_id) {
            Some("duplicate agent_id "@ + c.agent_id + " in "@ + path)
        } else {
            None
        },
    }
}

/// What is wrong with the entry at place `i`, if anything is.
pub open spec fn entry_fault(dir: Seq<char>, entries: Seq<Entry>, i: int) -> Option<Seq<char>> {
    match entries[i] {
        Entry::Failed(e) => Some("read_dir error: "@ + e@),
        Entry::File(f) => if !is_agent_file(f.name@) {
            None
        } else {
            let path = text::joined(dir, f.name@);
            match f.read {
                FileRead::Unreadable(e) => Some("cannot read "@ + path + ": "@ + e@),
                FileRead::Malformed(e) => Some("invalid agent config "@ + path + ": "@ + e@),
                FileRead::Parsed(c) => declaration_fault(
                    path,
                    f.name@,
                    c@,
                    declared_agents(entries, i),
                ),
            }
        },
    }
}

/// The first entry from `from` on with which something is wrong; the number
/// of entries where there is none.
pub open spec fn first_faulty(dir: Seq<char>, entries: Seq<Entry>, from: int) -> int
    decreases entries.len() - from,
{
    if from < 0 || from >= entries.len() || entry_fault(dir, entries, from) is Some {
        from
    } else {
        first_faulty(dir, entries, from + 1)
    }
}

/// A warning about an agent.
pub open spec fn agent_warning(agent: Seq<char>, message: Seq<char>) -> RecordModel {
    logging::record_of(Level::Warn, message, seq![logging::text_of("agent_id"@, agent)])
}

/// The warnings about one entry.
pub open spec fn entry_log(entry: Entry) -> Seq<RecordModel> {
    match entry {
        Entry::File(f) if is_agent_file(f.name@) => match f.read {
            FileRead::Parsed(c) => registry::liveness_of(
                c@.handler,
                f.handler_exists,
                f.handler_executable,
            ).map_values(|m: Seq<char>| agent_warning(c@.agent_id, m)),
            _ => seq![],
        },
        _ => seq![],
    }
}

/// The warnings about the first `n` entries.
pub open spec fn load_log(entries: Seq<Entry>, n: int) -> Seq<RecordModel>
    decreases n,
{
    if n <= 0 {
        seq![]
    } else {
        load_log(entries, n - 1) + entry_log(entries[n - 1])
    }
}

/// What loading a directory gives: entries are taken in order up to the first
/// with which something is wrong; the handlers of those before it are checked
/// for liveness; and where nothing is wrong, the registry holds the agents
/// that the files declare.
pub open spec fn load_outcome(dir: Seq<char>, listing: Listing, loaded: Loaded) -> bool {
    match listing {
        Listing::Missing => {
            &&& loaded.log@.len() == 0
            &&& loaded.outcome matches Ok(r) && r.well_formed() && r.directory() == dir && r@
                == Map::<Seq<char>, AgentConfigModel>::empty()
        },
        Listing::Unreadable(e) => {
            &&& loaded.log@.len() == 0
            &&& loaded.outcome matches Err(AgentdError::Config(m)) && m@ == "cannot read "@ + dir
                + ": "@ + e@
        },
        Listing::Entries(entries) => {
            let k = first_faulty(dir, entries@, 0);
            &&& logging::records_view(loaded.log@) == load_log(entries@, k)
            &&& if k < entries@.len() {
                loaded.outcome matches Err(AgentdError::Config(m)) && Some(m@) == entry_fault(
                    dir,
                    entries@,
                    k,
                )
            } else {
                loaded.outcome matches Ok(r) && r.well_formed() && r.directory() == dir && r@
                    == declared_agents(entries@, entries@.len() as int)
            }
        },
    }
}

/// Whether a file of this name is a registration, and so worth reading.
pub fn wants(name: &str) -> (r: bool)
    ensures
        r == is_agent_file(name@),
{
    agent_of(name).is_some()
}

fn agent_of(name: &str) -> (r: Option<String>)
    ensures
        match r {
            Some(t) => is_agent_file(name@) && t@ == stem_of(name@),
            None => !is_agent_file(name@),
        },
{
    match strip_suffix(name, ".toml") {
        Some(stem) => if same_text(stem.as_str(), "") {
            proof {
                reveal_strlit("");
                assert(stem@.len() == 0);
            }
            None
        } else {
            proof {
                reveal_strlit("");
                assert(stem@.len() == 0 ==> stem@ =~= ""@);
            }
            Some(stem)
        },
        None => None,
    }
}

/// Whether a declared agent may be added, and the error that it gives where
/// it may not.
fn check_declared(path: &str, stem: &str, config: &AgentConfig, before: &Registry) -> (r: Result<
    (),
    AgentdError,
>)
    requires
        before.well_formed(),
    ensures
        forall|name: Seq<char>|
            stem_of(name) == stem@ ==> match #[trigger] declaration_fault(
                path@,
                name,
                config@,
                before@,
            ) {
                Some(m) => r matches Err(AgentdError::Config(n)) && n@ == m,
                None => r is Ok,
            },
{
    if let Err(e) = config.validate() {
        return Err(e);
    }
    if !same_text(stem, config.agent_id.as_str()) {
        let mut m = "file ".to_owned();
        m.append(path);
        m.append(" declares agent_id ");
        m.append(config.agent_id.as_str());
        m.append(" but is named ");
        m.append(stem);
        m.append(".toml; filenames must match the agent_id");
        return Err(AgentdError::config(m));
    }
    if before.find(&config.agent_id).is_some() {
        let mut m = "duplicate agent_id ".to_owned();
        m.append(config.agent_id.as_str());
        m.append(" in ");
        m.append(path);
        return Err(AgentdError::config(m));
    }
    Ok(())
}

fn file_error(what: &str, path: &str, e: &str) -> (r: AgentdError)
    ensures
        r matches AgentdError::Config(m) && m@ == what@ + path@ + ": "@ + e@,
{
    let mut m = what.to_owned();
    m.append(path);
    m.append(": ");
    m.append(e);
    AgentdError::config(m)
}

/// Logs the warnings about one agent's handler.
fn warn_about(log: &mut Vec<Record>, config: &AgentConfig, exists: bool, executable: bool)
    ensures
        logging::records_view(final(log)@) == logging::records_view(old(log)@) + registry::liveness_of(
            config@.handler,
            exists,
            executable,
        ).map_values(|m: Seq<char>| agent_warning(config@.agent_id, m)),
{
    let warnings = config.liveness_warnings(exists, executable);
    let ghost records = registry::liveness_of(config@.handler, exists, executable).map_values(
        |m: Seq<char>| agent_warning(config@.agent_id, m),
    );
    let ghost start = logging::records_view(log@);
    assert(records.take(0) =~= seq![]);
    for i in 0..warnings.len()
        invariant
            text::texts(warnings@) == registry::liveness_of(config@.handler, exists, executable),
            records == registry::liveness_of(config@.handler, exists, executable).map_values(
                |m: Seq<char>| agent_warning(config@.agent_id, m),
            ),
            logging::records_view(log@) == start + records.take(i as int),
    {
        let ghost before = logging::records_view(log@);
        assert(warnings@[i as int]@ == text::texts(warnings@)[i as int]);
        let r = with_one(
            Level::Warn,
            warnings[i].as_str(),
            text_field("agent_id", config.agent_id.as_str()),
        );
        log.push(r);
        assert(logging::records_view(log@) =~= before.push(r@));
        assert(records.take(i + 1) =~= records.take(i as int).push(records[i as int]));
    }
    assert(text::texts(warnings@).len() == warnings@.len());
    assert(records.take(warnings@.len() as int) =~= records);
}

impl Registry {
    /// Loads the registry from what its directory holds. A missing directory
    /// is an empty registry; a file that cannot be read or decoded, a
    /// registration that is structurally wrong, a file not named after its
    /// agent and an agent declared twice are errors.
    pub fn load(dir: &str, listing: Listing) -> (loaded: Loaded)
        ensures
            load_outcome(dir@, listing, loaded),
    {
        let mut log: Vec<Record> = Vec::new();
        assert(logging::records_view(log@) =~= seq![]);
        let entries = match listing {
            Listing::Missing => {
                return Loaded { log, outcome: Ok(Registry::empty(dir)) };
            },
            Listing::Unreadable(e) => {
                return Loaded { log, outcome: Err(file_error("cannot read ", dir, e.as_str())) };
            },
            Listing::Entries(entries) => entries,
        };
        let mut registry = Registry::empty(dir);
        for i in 0..entries.len()
            invariant
                registry.well_formed(),
                registry.directory() == dir@,
                registry@ == declared_agents(entries@, i as int),
                first_faulty(dir@, entries@, 0) == first_faulty(dir@, entries@, i as int),
                logging::records_view(log@) == load_log(entries@, i as int),
                listing == Listing::Entries(entries),
        {
            match &entries[i] {
                Entry::Failed(e) => {
                    return Loaded {
                        log,
                        outcome: Err(
                            AgentdError::config(glue("read_dir error: ", e.as_str())),
                        ),
                    };
                },
                Entry::File(f) => {
                    if let Some(stem) = agent_of(f.name.as_str()) {
                        let path = join(dir, f.name.as_str());
                        match &f.read {
                            FileRead::Unreadable(e) => {
                                let e = file_error("cannot read ", path.as_str(), e.as_str());
                                return Loaded { log, outcome: Err(e) };
                            },
                            FileRead::Malformed(e) => {
                                let e = file_error(
                                    "invalid agent config ",
                                    path.as_str(),
                                    e.as_str(),
                                );
                                return Loaded { log, outcome: Err(e) };
                            },
                            FileRead::Parsed(config) => {
                                assert(entry_fault(dir@, entries@, i as int) == declaration_fault(
                                    path@,
                                    f.name@,
                                    config@,
                                    registry@,
                                ));
                                if let Err(e) = check_declared(
                                    path.as_str(),
                                    stem.as_str(),
                                    config,
                                    &registry,
                                ) {
                                    return Loaded { log, outcome: Err(e) };
                                }
                                warn_about(
                                    &mut log,
                                    config,
                                    f.handler_exists,
                                    f.handler_executable,
                                );
                                registry.put(config.clone());
                            },
                        }
                    } else {
                        assert(logging::records_view(log@) =~= load_log(entries@, i as int)
                            + entry_log(entries@[i as int]));
                    }
                },
            }
        }
        Loaded { log, outcome: Ok(registry) }
    }
}

} // verus!
