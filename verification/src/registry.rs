//! The agent registry: the map an event's agent is resolved against, kept in
//! one file per agent, named `{agent_id}.toml`.
//!
//! The registry in memory changes only after the file did: every change is
//! checked, written to disk, and then applied; where the write fails the
//! registry stays as it was.
//!
//! Problems of structure (a relative handler path, no concurrency, a relative
//! working directory) reject a registration. Problems of liveness (a handler
//! that is missing or not executable) are warnings only: they fail when the
//! handler is started, and are no reason to stop the daemon.

use vstd::prelude::*;
use vstd::string::*;

use crate::agent_id::AgentId;
use crate::error::AgentdError;
use crate::paths;
use crate::paths::{is_same_opt_path, is_same_path};
use crate::text;
use crate::text::{absolute, copy_opt, glue, join, quote_path, Relation};

pub mod diff;
pub mod laws;
pub mod listing;
pub mod load;
pub mod rules;

pub use load::{wants, AgentFile, Entry, Listing, Loaded};

verus! {

/// How many handlers of one agent run at a time unless configured.
pub const DEFAULT_CONCURRENCY: u32 = 1;

/// A registered agent.
#[derive(Debug)]
pub struct AgentConfig {
    pub agent_id: AgentId,
    /// Absolute path of the handler, which is executed directly and never
    /// through a shell.
    pub handler: String,
    pub max_concurrency: u32,
    pub working_directory: Option<String>,
    pub enabled: bool,
}

/// The model of a registered agent.
pub struct AgentConfigModel {
    pub agent_id: Seq<char>,
    pub handler: Seq<char>,
    pub max_concurrency: nat,
    pub working_directory: Option<Seq<char>>,
    pub enabled: bool,
}

impl View for AgentConfig {
    type V = AgentConfigModel;

    open spec fn view(&self) -> AgentConfigModel {
        AgentConfigModel {
            agent_id: self.agent_id@,
            handler: self.handler@,
            max_concurrency: self.max_concurrency as nat,
            working_directory: text::opt_view(self.working_directory),
            enabled: self.enabled,
        }
    }
}

impl Clone for AgentConfig {
    fn clone(&self) -> (r: AgentConfig)
        ensures
            r@ == self@,
    {
        AgentConfig {
            agent_id: self.agent_id.clone(),
            handler: self.handler.clone(),
            max_concurrency: self.max_concurrency,
            working_directory: copy_opt(&self.working_directory),
            enabled: self.enabled,
        }
    }
}

/// What is structurally wrong with a registration, if anything is.
pub open spec fn config_fault(c: AgentConfigModel) -> Option<Seq<char>> {
    if !text::is_absolute(c.handler) {
        Some(
            "agent "@ + c.agent_id + ": handler path must be absolute, got "@ + text::debug_path(
                c.handler,
            ),
        )
    } else if c.max_concurrency == 0 {
        Some("agent "@ + c.agent_id + ": max_concurrency must be >= 1"@)
    } else {
        match c.working_directory {
            Some(cwd) if !text::is_absolute(cwd) => Some(
                "agent "@ + c.agent_id + ": working_directory must be absolute: "@
                    + text::debug_path(cwd),
            ),
            _ => None,
        }
    }
}

/// What to warn of when an agent's handler cannot be started as it stands.
pub open spec fn liveness_of(handler: Seq<char>, exists: bool, executable: bool) -> Seq<Seq<char>> {
    if !exists {
        seq!["handler "@ + text::debug_path(handler) + " does not exist"@]
    } else if !executable {
        seq!["handler "@ + text::debug_path(handler) + " is not executable"@]
    } else {
        seq![]
    }
}

/// Whether two registrations agree in every field, in their paths up to how
/// the components are separated.
pub open spec fn agree(a: AgentConfigModel, b: AgentConfigModel) -> bool {
    &&& a.agent_id == b.agent_id
    &&& paths::same_path(a.handler, b.handler)
    &&& a.max_concurrency == b.max_concurrency
    &&& paths::same_opt_path(a.working_directory, b.working_directory)
    &&& a.enabled == b.enabled
}

impl AgentConfig {
    /// Structural validation: an absolute handler path, at least one handler
    /// at a time, and an absolute working directory where there is one.
    pub fn validate(&self) -> (r: Result<(), AgentdError>)
        ensures
            match config_fault(self@) {
                Some(m) => r matches Err(AgentdError::Config(n)) && n@ == m,
                None => r is Ok,
            },
    {
        if !absolute(self.handler.as_str()) {
            let mut m = "agent ".to_owned();
            m.append(self.agent_id.as_str());
            m.append(": handler path must be absolute, got ");
            m.append(quote_path(self.handler.as_str()).as_str());
            return Err(AgentdError::config(m));
        }
        if self.max_concurrency == 0 {
            let mut m = "agent ".to_owned();
            m.append(self.agent_id.as_str());
            m.append(": max_concurrency must be >= 1");
            return Err(AgentdError::config(m));
        }
        if let Some(cwd) = &self.working_directory {
            if !absolute(cwd.as_str()) {
                let mut m = "agent ".to_owned();
                m.append(self.agent_id.as_str());
                m.append(": working_directory must be absolute: ");
                m.append(quote_path(cwd.as_str()).as_str());
                return Err(AgentdError::config(m));
            }
        }
        Ok(())
    }

    /// Warnings about the handler, given what the file system says of its
    /// path. They are no errors: a missing handler fails when it is started.
    pub fn liveness_warnings(&self, exists: bool, executable: bool) -> (r: Vec<String>)
        ensures
            text::texts(r@) == liveness_of(self.handler@, exists, executable),
    {
        let mut out: Vec<String> = Vec::new();
        if !exists {
            let mut m = "handler ".to_owned();
            m.append(quote_path(self.handler.as_str()).as_str());
            m.append(" does not exist");
            out.push(m);
        } else if !executable {
            let mut m = "handler ".to_owned();
            m.append(quote_path(self.handler.as_str()).as_str());
            m.append(" is not executable");
            out.push(m);
        }
        assert(text::texts(out@) =~= liveness_of(self.handler@, exists, executable));
        out
    }

    /// Whether two registrations agree in every field.
    pub fn same(&self, other: &AgentConfig) -> (r: bool)
        ensures
            r == agree(self@, other@),
    {
        self.agent_id.same(&other.agent_id) && is_same_path(
            self.handler.as_str(),
            other.handler.as_str(),
        ) && self.max_concurrency == other.max_concurrency && is_same_opt_path(
            &self.working_directory,
            &other.working_directory,
        ) && self.enabled == other.enabled
    }
}

/// Whether a file's permission bits let anybody execute it; not where they
/// could not be read.
pub fn is_executable(mode: Option<u32>) -> (r: bool)
    ensures
        r == (mode is Some && mode->0 & 0o111 != 0),
{
    match mode {
        Some(m) => m & 0o111 != 0,
        None => false,
    }
}

/// One difference between two states of the registry.
#[derive(Debug)]
pub enum Change {
    Added(AgentConfig),
    Updated(AgentConfig),
    Enabled(AgentConfig),
    Disabled(AgentConfig),
    Removed(AgentId),
}

/// The model of a difference.
pub enum ChangeModel {
    Added(AgentConfigModel),
    Updated(AgentConfigModel),
    Enabled(AgentConfigModel),
    Disabled(AgentConfigModel),
    Removed(Seq<char>),
}

impl ChangeModel {
    /// The agent that the change is about.
    pub open spec fn agent(self) -> Seq<char> {
        match self {
            ChangeModel::Added(c) => c.agent_id,
            ChangeModel::Updated(c) => c.agent_id,
            ChangeModel::Enabled(c) => c.agent_id,
            ChangeModel::Disabled(c) => c.agent_id,
            ChangeModel::Removed(id) => id,
        }
    }
}

impl View for Change {
    type V = ChangeModel;

    open spec fn view(&self) -> ChangeModel {
        match self {
            Change::Added(c) => ChangeModel::Added(c@),
            Change::Updated(c) => ChangeModel::Updated(c@),
            Change::Enabled(c) => ChangeModel::Enabled(c@),
            Change::Disabled(c) => ChangeModel::Disabled(c@),
            Change::Removed(id) => ChangeModel::Removed(id@),
        }
    }
}

impl Clone for Change {
    fn clone(&self) -> (r: Change)
        ensures
            r@ == self@,
    {
        match self {
            Change::Added(c) => Change::Added(c.clone()),
            Change::Updated(c) => Change::Updated(c.clone()),
            Change::Enabled(c) => Change::Enabled(c.clone()),
            Change::Disabled(c) => Change::Disabled(c.clone()),
            Change::Removed(id) => Change::Removed(id.clone()),
        }
    }
}

/// The models of a list of differences.
pub open spec fn changes_view(changes: Seq<Change>) -> Seq<ChangeModel> {
    changes.map_values(|c: Change| c@)
}

impl Change {
    /// The agent that the change is about.
    pub fn agent_id(&self) -> (id: AgentId)
        ensures
            id@ == self@.agent(),
    {
        match self {
            Change::Added(c) => c.agent_id.clone(),
            Change::Updated(c) => c.agent_id.clone(),
            Change::Enabled(c) => c.agent_id.clone(),
            Change::Disabled(c) => c.agent_id.clone(),
            Change::Removed(id) => id.clone(),
        }
    }
}

// ---------------------------------------------------------------------------
// The registry
// ---------------------------------------------------------------------------

/// The registered agents and the directory they are kept in.
#[derive(Debug)]
pub struct Registry {
    dir: String,
    agents: Vec<AgentConfig>,
}

impl View for Registry {
    type V = Map<Seq<char>, AgentConfigModel>;

    closed spec fn view(&self) -> Map<Seq<char>, AgentConfigModel> {
        listing::by_id(listing::configs_view(self.agents@))
    }
}

/// What an unknown agent is answered.
pub open spec fn not_registered(id: Seq<char>) -> Seq<char> {
    "agent "@ + id + " is not registered"@
}

/// What a second registration of an agent is answered.
pub open spec fn already_registered(id: Seq<char>) -> Seq<char> {
    "agent "@ + id + " already registered"@
}

/// Why an agent cannot be registered, if it cannot.
pub open spec fn register_fault(
    agents: Map<Seq<char>, AgentConfigModel>,
    c: AgentConfigModel,
) -> Option<Seq<char>> {
    match config_fault(c) {
        Some(m) => Some(m),
        None => if agents.dom().contains(c.agent_id) {
            Some(already_registered(c.agent_id))
        } else {
            None
        },
    }
}

/// Why an agent cannot be updated, if it cannot.
pub open spec fn update_fault(
    agents: Map<Seq<char>, AgentConfigModel>,
    c: AgentConfigModel,
) -> Option<Seq<char>> {
    match config_fault(c) {
        Some(m) => Some(m),
        None => if agents.dom().contains(c.agent_id) {
            None
        } else {
            Some(not_registered(c.agent_id))
        },
    }
}

fn not_registered_error(id: &AgentId) -> (e: AgentdError)
    ensures
        e matches AgentdError::Config(m) && m@ == not_registered(id@),
{
    let mut m = "agent ".to_owned();
    m.append(id.as_str());
    m.append(" is not registered");
    AgentdError::config(m)
}

impl Registry {
    /// Agents are kept in the order of their ids, and none is structurally
    /// wrong.
    pub closed spec fn well_formed(self) -> bool {
        &&& listing::is_listing(listing::configs_view(self.agents@))
        &&& listing::all_valid(listing::configs_view(self.agents@))
    }

    /// The directory the files are in.
    pub closed spec fn directory(self) -> Seq<char> {
        self.dir@
    }

    /// The directory the files are in.
    pub fn dir(&self) -> (r: &str)
        ensures
            r@ == self.directory(),
    {
        self.dir.as_str()
    }

    /// An empty registry.
    pub fn empty(dir: &str) -> (r: Registry)
        ensures
            r.well_formed(),
            r.directory() == dir@,
            r@ == Map::<Seq<char>, AgentConfigModel>::empty(),
    {
        let agents: Vec<AgentConfig> = Vec::new();
        assert(listing::configs_view(agents@) =~= seq![]);
        let r = Registry { dir: dir.to_owned(), agents };
        assert(r@ =~= Map::<Seq<char>, AgentConfigModel>::empty());
        r
    }

    fn find(&self, id: &AgentId) -> (r: Option<usize>)
        requires
            self.well_formed(),
        ensures
            match r {
                Some(k) => k < self.agents@.len() && self.agents@[k as int].agent_id@ == id@,
                None => !self@.dom().contains(id@),
            },
            r is Some ==> self@.dom().contains(id@) && self@[id@]
                == self.agents@[r->0 as int]@,
    {
        let ghost s = listing::configs_view(self.agents@);
        for i in 0..self.agents.len()
            invariant
                s == listing::configs_view(self.agents@),
                listing::is_listing(s),
                self@ == listing::by_id(s),
                forall|j: int| 0 <= j < i ==> (#[trigger] s[j]).agent_id != id@,
        {
            assert(s[i as int] == self.agents@[i as int]@);
            if self.agents[i].agent_id.same(id) {
                proof {
                    listing::lemma_place(s, i as int);
                }
                return Some(i);
            }
        }
        None
    }

    /// One agent's registration.
    pub fn get(&self, id: &AgentId) -> (r: Option<AgentConfig>)
        requires
            self.well_formed(),
        ensures
            match r {
                Some(c) => self@.dom().contains(id@) && c@ == self@[id@] && c@.agent_id == id@
                    && config_fault(c@) is None,
                None => !self@.dom().contains(id@),
            },
    {
        match self.find(id) {
            Some(k) => Some(self.agents[k].clone()),
            None => None,
        }
    }

    /// All registrations in the order of their ids.
    pub fn snapshot(&self) -> (r: Vec<AgentConfig>)
        requires
            self.well_formed(),
        ensures
            listing::is_listing(listing::configs_view(r@)),
            listing::all_valid(listing::configs_view(r@)),
            listing::by_id(listing::configs_view(r@)) == self@,
            self@.dom().finite(),
            r@.len() == self@.dom().len(),
    {
        proof {
            listing::lemma_listing_len(listing::configs_view(self.agents@));
        }
        let mut out: Vec<AgentConfig> = Vec::new();
        for i in 0..self.agents.len()
            invariant
                listing::configs_view(out@) == listing::configs_view(self.agents@).take(i as int),
        {
            let c = self.agents[i].clone();
            let ghost before = out@;
            out.push(c);
            assert(listing::configs_view(out@) =~= listing::configs_view(before).push(c@));
            assert(listing::configs_view(out@) =~= listing::configs_view(self.agents@).take(i + 1));
        }
        assert(listing::configs_view(self.agents@).take(self.agents@.len() as int) =~= listing::configs_view(
            self.agents@,
        ));
        out
    }

    /// Puts a registration in, in place of the one the agent had if it had one.
    fn put(&mut self, config: AgentConfig)
        requires
            old(self).well_formed(),
            config_fault(config@) is None,
        ensures
            final(self).well_formed(),
            final(self).directory() == old(self).directory(),
            final(self)@ == old(self)@.insert(config@.agent_id, config@),
    {
        let ghost s = listing::configs_view(self.agents@);
        let ghost c = config@;
        let n: usize = self.agents.len();
        let mut k: usize = 0;
        while k < n
            invariant
                k <= n,
                n == self.agents@.len(),
                *self == *old(self),
                s == listing::configs_view(self.agents@),
                c == config@,
                forall|i: int| 0 <= i < k ==> text::lex_lt((#[trigger] s[i]).agent_id, c.agent_id),
            ensures
                k <= n,
                k < n ==> s[k as int].agent_id == c.agent_id || text::lex_lt(
                    c.agent_id,
                    s[k as int].agent_id,
                ),
            decreases n - k,
        {
            assert(s[k as int] == self.agents@[k as int]@);
            match self.agents[k].agent_id.relation(&config.agent_id) {
                Relation::Before => {
                    k = k + 1;
                },
                _ => {
                    break;
                },
            }
        }
        if k < n && self.agents[k].agent_id.same(&config.agent_id) {
            proof {
                assert(s[k as int] == self.agents@[k as int]@);
                listing::lemma_update(s, k as int, c);
                assert(listing::configs_view(self.agents@.update(k as int, config)) =~= s.update(
                    k as int,
                    c,
                ));
            }
            self.agents.set(k, config);
        } else {
            proof {
                if k < n {
                    assert(s[k as int] == self.agents@[k as int]@);
                }
                assert forall|i: int| k <= i < s.len() implies text::lex_lt(
                    c.agent_id,
                    (#[trigger] s[i]).agent_id,
                ) by {
                    if i > k {
                        text::lemma_lex_transitive(
                            c.agent_id,
                            s[k as int].agent_id,
                            s[i].agent_id,
                        );
                    }
                }
                listing::lemma_insert(s, k as int, c);
                assert(listing::configs_view(self.agents@.insert(k as int, config)) =~= s.insert(
                    k as int,
                    c,
                ));
            }
            self.agents.insert(k, config);
        }
    }

    /// Whether an agent can be registered: it is well-formed and new.
    pub fn check_register(&self, config: &AgentConfig) -> (r: Result<(), AgentdError>)
        requires
            self.well_formed(),
        ensures
            match register_fault(self@, config@) {
                Some(m) => r matches Err(AgentdError::Config(n)) && n@ == m,
                None => r is Ok,
            },
    {
        if let Err(e) = config.validate() {
            return Err(e);
        }
        if self.find(&config.agent_id).is_some() {
            let mut m = "agent ".to_owned();
            m.append(config.agent_id.as_str());
            m.append(" already registered");
            return Err(AgentdError::config(m));
        }
        Ok(())
    }

    /// Registers a new agent once its file is written. `persisted` says how
    /// that went; where it failed, nothing changes.
    pub fn register(&mut self, config: &AgentConfig, persisted: Result<(), AgentdError>) -> (r:
        Result<(), AgentdError>)
        requires
            old(self).well_formed(),
        ensures
            final(self).well_formed(),
            final(self).directory() == old(self).directory(),
            match register_fault(old(self)@, config@) {
                Some(m) => (r matches Err(AgentdError::Config(n)) && n@ == m) && final(self)@
                    == old(self)@,
                None => match persisted {
                    Ok(_) => r is Ok && final(self)@ == old(self)@.insert(
                        config@.agent_id,
                        config@,
                    ),
                    Err(e) => r == Err::<(), AgentdError>(e) && final(self)@ == old(self)@,
                },
            },
    {
        if let Err(e) = self.check_register(config) {
            return Err(e);
        }
        if let Err(e) = persisted {
            return Err(e);
        }
        self.put(config.clone());
        Ok(())
    }

    /// Whether an agent can be updated: it is well-formed and registered.
    pub fn check_update(&self, config: &AgentConfig) -> (r: Result<(), AgentdError>)
        requires
            self.well_formed(),
        ensures
            match update_fault(self@, config@) {
                Some(m) => r matches Err(AgentdError::Config(n)) && n@ == m,
                None => r is Ok,
            },
    {
        if let Err(e) = config.validate() {
            return Err(e);
        }
        if self.find(&config.agent_id).is_none() {
            return Err(not_registered_error(&config.agent_id));
        }
        Ok(())
    }

    /// Replaces a registration once its file is written. `persisted` says how
    /// that went; where it failed, nothing changes.
    pub fn update(&mut self, config: &AgentConfig, persisted: Result<(), AgentdError>) -> (r:
        Result<(), AgentdError>)
        requires
            old(self).well_formed(),
        ensures
            final(self).well_formed(),
            final(self).directory() == old(self).directory(),
            match update_fault(old(self)@, config@) {
                Some(m) => (r matches Err(AgentdError::Config(n)) && n@ == m) && final(self)@
                    == old(self)@,
                None => match persisted {
                    Ok(_) => r is Ok && final(self)@ == old(self)@.insert(
                        config@.agent_id,
                        config@,
                    ),
                    Err(e) => r == Err::<(), AgentdError>(e) && final(self)@ == old(self)@,
                },
            },
    {
        if let Err(e) = self.check_update(config) {
            return Err(e);
        }
        if let Err(e) = persisted {
            return Err(e);
        }
        self.put(config.clone());
        Ok(())
    }

    /// What to write to disk to switch an agent on or off: the registration as
    /// it will be, or nothing where it already is so.
    pub fn check_set_enabled(&self, id: &AgentId, enabled: bool) -> (r: Result<
        Option<AgentConfig>,
        AgentdError,
    >)
        requires
            self.well_formed(),
        ensures
            if !self@.dom().contains(id@) {
                r matches Err(AgentdError::Config(n)) && n@ == not_registered(id@)
            } else if self@[id@].enabled == enabled {
                r matches Ok(None)
            } else {
                r matches Ok(Some(c)) && c@ == (AgentConfigModel { enabled, ..self@[id@] })
                    && c@.agent_id == id@ && config_fault(c@) is None
            },
    {
        match self.find(id) {
            None => Err(not_registered_error(id)),
            Some(k) => {
                let existing = &self.agents[k];
                if existing.enabled == enabled {
                    return Ok(None);
                }
                let mut updated = existing.clone();
                updated.enabled = enabled;
                Ok(Some(updated))
            },
        }
    }

    /// Switches an agent on or off once its file is written. Where it already
    /// is so, nothing was to be written and `persisted` does not count.
    pub fn set_enabled(
        &mut self,
        id: &AgentId,
        enabled: bool,
        persisted: Result<(), AgentdError>,
    ) -> (r: Result<(), AgentdError>)
        requires
            old(self).well_formed(),
        ensures
            final(self).well_formed(),
            final(self).directory() == old(self).directory(),
            if !old(self)@.dom().contains(id@) {
                (r matches Err(AgentdError::Config(n)) && n@ == not_registered(id@)) && final(self)@ == old(self)@
            } else if old(self)@[id@].enabled == enabled {
                r is Ok && final(self)@ == old(self)@
            } else {
                match persisted {
                    Ok(_) => r is Ok && final(self)@ == old(self)@.insert(
                        id@,
                        (AgentConfigModel { enabled, ..old(self)@[id@] }),
                    ),
                    Err(e) => r == Err::<(), AgentdError>(e) && final(self)@ == old(self)@,
                }
            },
    {
        match self.check_set_enabled(id, enabled) {
            Err(e) => Err(e),
            Ok(None) => Ok(()),
            Ok(Some(updated)) => {
                if let Err(e) = persisted {
                    return Err(e);
                }
                self.put(updated);
                Ok(())
            },
        }
    }

    /// Whether an agent can be unregistered: it is registered.
    pub fn check_unregister(&self, id: &AgentId) -> (r: Result<(), AgentdError>)
        requires
            self.well_formed(),
        ensures
            if self@.dom().contains(id@) {
                r is Ok
            } else {
                r matches Err(AgentdError::Config(n)) && n@ == not_registered(id@)
            },
    {
        if self.find(id).is_none() {
            return Err(not_registered_error(id));
        }
        Ok(())
    }

    /// Unregisters an agent once its file is deleted. `removed` says how that
    /// went, in the words of the file system where it failed; then nothing
    /// changes.
    pub fn unregister(&mut self, id: &AgentId, removed: Result<(), String>) -> (r: Result<
        (),
        AgentdError,
    >)
        requires
            old(self).well_formed(),
        ensures
            final(self).well_formed(),
            final(self).directory() == old(self).directory(),
            if !old(self)@.dom().contains(id@) {
                (r matches Err(AgentdError::Config(n)) && n@ == not_registered(id@)) && final(self)@ == old(self)@
            } else {
                match removed {
                    Ok(_) => r is Ok && final(self)@ == old(self)@.remove(id@),
                    Err(e) => (r matches Err(AgentdError::Config(n)) && n@ == "cannot remove "@
                        + file_of(old(self).directory(), id@) + ": "@ + e@) && final(self)@
                        == old(self)@,
                }
            },
    {
        match self.find(id) {
            None => Err(not_registered_error(id)),
            Some(k) => {
                if let Err(e) = removed {
                    let mut m = "cannot remove ".to_owned();
                    m.append(self.file_path(id).as_str());
                    m.append(": ");
                    m.append(e.as_str());
                    return Err(AgentdError::config(m));
                }
                proof {
                    let s = listing::configs_view(self.agents@);
                    listing::lemma_remove(s, k as int);
                    assert(listing::configs_view(self.agents@.remove(k as int)) =~= s.remove(k as int));
                }
                self.agents.remove(k);
                Ok(())
            },
        }
    }

    /// The file an agent is kept in.
    pub fn file_path(&self, id: &AgentId) -> (r: String)
        ensures
            r@ == file_of(self.directory(), id@),
    {
        join(self.dir.as_str(), glue(id.as_str(), ".toml").as_str())
    }
}

/// The file an agent is kept in.
pub open spec fn file_of(dir: Seq<char>, id: Seq<char>) -> Seq<char> {
    text::joined(dir, id + ".toml"@)
}

} // verus!
