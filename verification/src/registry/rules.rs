//! Laws of the registry, told by the fields of the registrations.

use vstd::prelude::*;

use crate::agent_id::AgentId;
use crate::error::AgentdError;
use crate::files::FileRead;
use crate::paths;
use crate::registry;
use crate::registry::diff;
use crate::registry::laws;
use crate::registry::listing;
use crate::registry::load;
use crate::registry::load::{AgentFile, Entry, Listing, Loaded};
use crate::registry::{AgentConfig, AgentConfigModel, Change, ChangeModel, Registry};
use crate::text;

verus! {

/// A registration is sound exactly where its handler begins with a slash, it
/// allows a handler at all, and its working directory, where it has one, begins
/// with a slash.
pub proof fn lemma_sound_registration(c: AgentConfigModel)
    ensures
        registry::config_fault(c) is None <==> {
            &&& c.handler.len() > 0 && c.handler[0] == '/'
            &&& c.max_concurrency >= 1
            &&& c.working_directory is Some ==> c.working_directory->0.len() > 0
                && c.working_directory->0[0] == '/'
        },
{
}

/// Neither the id nor whether it is enabled makes a registration unsound.
pub proof fn lemma_soundness_of_others(a: AgentConfigModel, b: AgentConfigModel)
    requires
        a.handler == b.handler,
        a.max_concurrency == b.max_concurrency,
        a.working_directory == b.working_directory,
    ensures
        registry::config_fault(a) is None <==> registry::config_fault(b) is None,
{
}

/// Checking a registration succeeds exactly where it is sound.
pub proof fn lemma_validated(c: AgentConfig, r: Result<(), AgentdError>)
    requires
        call_ensures(AgentConfig::validate, (&c,), r),
    ensures
        r is Ok <==> {
            &&& c.handler@.len() > 0 && c.handler@[0] == '/'
            &&& c.max_concurrency >= 1
            &&& c.working_directory matches Some(d) ==> d@.len() > 0 && d@[0] == '/'
        },
        r is Err ==> r->Err_0 is Config,
{
}

/// An agent can be registered exactly where its registration is sound and it
/// is not registered, and updated exactly where its registration is sound and
/// it is registered. So no agent can be both.
pub proof fn lemma_registered_or_updated(
    agents: Map<Seq<char>, AgentConfigModel>,
    c: AgentConfigModel,
)
    ensures
        registry::register_fault(agents, c) is None <==> registry::config_fault(c) is None
            && !agents.dom().contains(c.agent_id),
        registry::update_fault(agents, c) is None <==> registry::config_fault(c) is None
            && agents.dom().contains(c.agent_id),
{
}

/// What a check of a new registration gives.
pub proof fn lemma_checked_register(r: Registry, c: AgentConfig, out: Result<(), AgentdError>)
    requires
        r.well_formed(),
        call_ensures(Registry::check_register, (&r, &c), out),
    ensures
        out is Ok <==> registry::config_fault(c@) is None && !r@.dom().contains(c@.agent_id),
{
}

/// What a check of an update gives.
pub proof fn lemma_checked_update(r: Registry, c: AgentConfig, out: Result<(), AgentdError>)
    requires
        r.well_formed(),
        call_ensures(Registry::check_update, (&r, &c), out),
    ensures
        out is Ok <==> registry::config_fault(c@) is None && r@.dom().contains(c@.agent_id),
{
}

/// What is written to switch an agent on or off is its registration with
/// nothing else changed; nothing is where it is so already.
pub proof fn lemma_checked_switch(
    r: Registry,
    id: crate::agent_id::AgentId,
    enabled: bool,
    out: Result<Option<AgentConfig>, AgentdError>,
)
    requires
        r.well_formed(),
        call_ensures(Registry::check_set_enabled, (&r, &id, enabled), out),
    ensures
        out is Ok <==> r@.dom().contains(id@),
        out matches Ok(Some(c)) ==> {
            &&& c@.enabled == enabled
            &&& r@[id@].enabled != enabled
            &&& c@.agent_id == id@
            &&& c@.handler == r@[id@].handler
            &&& c@.max_concurrency == r@[id@].max_concurrency
            &&& c@.working_directory == r@[id@].working_directory
        },
        out matches Ok(None) ==> r@[id@].enabled == enabled,
{
}

/// One agent's registration is the one that was put in for it.
pub proof fn lemma_got(r: Registry, id: crate::agent_id::AgentId, out: Option<AgentConfig>)
    requires
        r.well_formed(),
        call_ensures(Registry::get, (&r, &id), out),
    ensures
        out is Some <==> r@.dom().contains(id@),
        out is Some ==> out->0@ == r@[id@] && out->0@.agent_id == id@,
{
    if out is Some {
        laws::lemma_registered_agents(r, id@);
    }
}

/// A snapshot holds every agent once, in the order of the ids.
pub proof fn lemma_snapshot(r: Registry, out: Vec<AgentConfig>)
    requires
        r.well_formed(),
        call_ensures(Registry::snapshot, (&r,), out),
    ensures
        forall|i: int, j: int|
            #![trigger out@[i], out@[j]]
            0 <= i < j < out@.len() ==> text::lex_lt(out@[i]@.agent_id, out@[j]@.agent_id),
        forall|i: int|
            0 <= i < out@.len() ==> r@.dom().contains((#[trigger] out@[i])@.agent_id)
                && r@[out@[i]@.agent_id] == out@[i]@,
        out@.len() == r@.dom().len(),
{
    let s = listing::configs_view(out@);
    assert forall|i: int, j: int|
        #![trigger out@[i], out@[j]]
        0 <= i < j < out@.len() implies text::lex_lt(out@[i]@.agent_id, out@[j]@.agent_id) by {
        assert(s[i] == out@[i]@ && s[j] == out@[j]@);
    }
    assert forall|i: int| 0 <= i < out@.len() implies r@.dom().contains((#[trigger] out@[i])@.agent_id)
        && r@[out@[i]@.agent_id] == out@[i]@ by {
        assert(s[i] == out@[i]@);
        listing::lemma_place(s, i);
    }
    assert(s.len() == out@.len());
}

// ---------------------------------------------------------------------------
// Changes
// ---------------------------------------------------------------------------

/// Whether two registrations of an agent differ in a field that matters beside
/// whether they are enabled: in how many handlers may run, in the components of
/// the handler's path or in those of the working directory's.
pub open spec fn differ(a: AgentConfigModel, b: AgentConfigModel) -> bool {
    ||| a.max_concurrency != b.max_concurrency
    ||| !paths::same_path(a.handler, b.handler)
    ||| a.working_directory is Some != b.working_directory is Some
    ||| a.working_directory is Some && b.working_directory is Some && !paths::same_path(
        a.working_directory->0,
        b.working_directory->0,
    )
}

/// What the changes of a reload say of one agent, by its two registrations. A
/// new agent is added and a missing one removed. One that was switched is
/// enabled or disabled. One that was not is updated exactly where its
/// registrations differ in how many handlers may run, in the components of the
/// handler's path or in those of the working directory's.
pub proof fn lemma_changes_by_fields(
    old_agents: Map<Seq<char>, AgentConfigModel>,
    new_agents: Map<Seq<char>, AgentConfigModel>,
    changes: Seq<ChangeModel>,
    id: Seq<char>,
)
    requires
        laws::keyed(old_agents),
        laws::keyed(new_agents),
        diff::is_diff(old_agents, new_agents, changes),
    ensures
        ({
            let before = old_agents.dom().contains(id);
            let after = new_agents.dom().contains(id);
            let a = old_agents[id];
            let b = new_agents[id];
            &&& !before && after ==> changes.contains(ChangeModel::Added(b))
            &&& before && !after ==> changes.contains(ChangeModel::Removed(id))
            &&& before && after && !a.enabled && b.enabled ==> changes.contains(ChangeModel::Enabled(b))
            &&& before && after && a.enabled && !b.enabled ==> changes.contains(ChangeModel::Disabled(b))
            &&& before && after && a.enabled == b.enabled ==> (changes.contains(ChangeModel::Updated(b))
                <==> differ(a, b))
            &&& before && after && a.max_concurrency != b.max_concurrency ==> diff::mentions(changes, id)
            &&& !before && !after ==> !diff::mentions(changes, id)
            &&& before && after && a.enabled == b.enabled && !differ(a, b) ==> !diff::mentions(
                changes,
                id,
            )
        }),
        forall|i: int, j: int|
            #![trigger changes[i], changes[j]]
            0 <= i < j < changes.len() ==> changes[i].agent() != changes[j].agent(),
{
    let was = diff::lookup(old_agents, id);
    let now = diff::lookup(new_agents, id);
    if diff::mentions(changes, id) {
        let k = choose|k: int| 0 <= k < changes.len() && (#[trigger] changes[k]).agent() == id;
        assert(diff::change_for(was, now) == Some(changes[k]));
        assert(changes.contains(changes[k]));
    }
    if was is Some && now is Some && changes.contains(ChangeModel::Updated(now->0)) {
        let k = choose|k: int| 0 <= k < changes.len() && changes[k] == ChangeModel::Updated(now->0);
        assert(changes[k].agent() == id);
        assert(diff::change_for(was, now) == Some(changes[k]));
    }
    assert forall|i: int, j: int|
        #![trigger changes[i], changes[j]]
        0 <= i < j < changes.len() implies changes[i].agent() != changes[j].agent() by {
        text::lemma_lex_irreflexive(changes[i].agent());
    }
}

/// The changes of a reload bring every agent to its new registration: with so
/// many handlers, enabled or not, and the paths with the same components.
pub proof fn lemma_patched_fields(
    old_agents: Map<Seq<char>, AgentConfigModel>,
    new_agents: Map<Seq<char>, AgentConfigModel>,
    changes: Seq<ChangeModel>,
    id: Seq<char>,
)
    requires
        laws::keyed(old_agents),
        laws::keyed(new_agents),
        diff::is_diff(old_agents, new_agents, changes),
    ensures
        ({
            let patched = laws::patched(old_agents, changes);
            &&& patched.dom().contains(id) <==> new_agents.dom().contains(id)
            &&& new_agents.dom().contains(id) ==> {
                &&& patched[id].agent_id == id
                &&& patched[id].max_concurrency == new_agents[id].max_concurrency
                &&& patched[id].enabled == new_agents[id].enabled
                &&& paths::same_path(patched[id].handler, new_agents[id].handler)
                &&& patched[id].working_directory is Some
                    == new_agents[id].working_directory is Some
                &&& new_agents[id].working_directory is Some ==> paths::same_path(
                    patched[id].working_directory->0,
                    new_agents[id].working_directory->0,
                )
            }
        }),
{
    laws::lemma_diff_patches(old_agents, new_agents, changes);
    assert(new_agents.dom().contains(id) ==> new_agents[id].agent_id == id);
}

/// Two registrations are told to be the same exactly where they agree in the
/// id, in being enabled, and in everything that matters beside it.
pub proof fn lemma_told_same(a: AgentConfig, b: AgentConfig, r: bool)
    requires
        call_ensures(AgentConfig::same, (&a, &b), r),
    ensures
        r <==> a.agent_id@ == b.agent_id@ && a.enabled == b.enabled && !differ(a@, b@),
{
}

// ---------------------------------------------------------------------------
// Files
// ---------------------------------------------------------------------------

/// A file is a registration exactly where its name is something followed by
/// `.toml`, and it is then for that agent.
pub proof fn lemma_registration_file(name: Seq<char>)
    ensures
        load::is_agent_file(name) <==> exists|stem: Seq<char>|
            stem.len() > 0 && name == #[trigger] (stem + ".toml"@),
        forall|stem: Seq<char>|
            name == #[trigger] (stem + ".toml"@) ==> load::stem_of(name) == stem,
{
    text::laws::lemma_has_suffix(name, ".toml"@);
    if load::is_agent_file(name) {
        let stem = name.take(name.len() - ".toml"@.len());
        assert(name == stem + ".toml"@);
    }
    assert forall|stem: Seq<char>| name == #[trigger] (stem + ".toml"@) implies load::stem_of(name)
        == stem by {
        assert(load::stem_of(name) =~= stem);
    }
}

/// What a file is wanted for.
pub proof fn lemma_wanted(name: &str, r: bool)
    requires
        call_ensures(load::wants, (name,), r),
    ensures
        r <==> exists|stem: Seq<char>| stem.len() > 0 && name@ == #[trigger] (stem + ".toml"@),
{
    lemma_registration_file(name@);
}

/// An agent's file stands in the directory, under the agent's id.
pub proof fn lemma_file_of_agent(dir: Seq<char>, id: Seq<char>)
    requires
        dir.len() > 0,
    ensures
        ({
            let path = registry::file_of(dir, id);
            let name = id + ".toml"@;
            &&& path.take(dir.len() as int) == dir
            &&& path.skip(path.len() - name.len()) == name
            &&& path[path.len() - name.len() - 1] == '/'
            &&& path.len() == dir.len() + name.len() + if dir.last() == '/' {
                0int
            } else {
                1
            }
        }),
{
    text::laws::lemma_joined(dir, id + ".toml"@);
    reveal_strlit("/");
}

/// Whether an entry of the directory is as it must be: it could be read, and
/// where it is a registration it holds a sound one of the agent it is named
/// after.
pub open spec fn entry_in_order(e: Entry) -> bool {
    match e {
        Entry::Failed(_) => false,
        Entry::File(f) => load::is_agent_file(f.name@) ==> (f.read matches FileRead::Parsed(c)
            && f.name@ == c@.agent_id + ".toml"@ && registry::config_fault(c@) is None),
    }
}

proof fn lemma_fault_at(dir: Seq<char>, entries: Seq<Entry>, i: int)
    requires
        0 <= i < entries.len(),
    ensures
        load::entry_fault(dir, entries, i) is None <==> entry_in_order(entries[i]) && (
        load::declared(entries[i]) is Some ==> !load::declared_agents(entries, i).dom().contains(
            load::declared(entries[i])->0.agent_id,
        )),
{
    match entries[i] {
        Entry::Failed(_) => {},
        Entry::File(f) => {
            if load::is_agent_file(f.name@) {
                lemma_registration_file(f.name@);
                match f.read {
                    FileRead::Parsed(c) => {
                        if load::stem_of(f.name@) == c@.agent_id {
                            let stem = choose|stem: Seq<char>|
                                stem.len() > 0 && f.name@ == #[trigger] (stem + ".toml"@);
                            assert(stem == c@.agent_id);
                        }
                    },
                    _ => {},
                }
            }
        },
    }
}

proof fn lemma_first_faulty_at(dir: Seq<char>, entries: Seq<Entry>, from: int)
    requires
        0 <= from <= entries.len(),
    ensures
        from <= load::first_faulty(dir, entries, from) <= entries.len(),
        load::first_faulty(dir, entries, from) < entries.len() ==> load::entry_fault(
            dir,
            entries,
            load::first_faulty(dir, entries, from),
        ) is Some,
        forall|i: int|
            from <= i < load::first_faulty(dir, entries, from) ==> (#[trigger] load::entry_fault(
                dir,
                entries,
                i,
            )) is None,
    decreases entries.len() - from,
{
    if from < entries.len() && load::entry_fault(dir, entries, from) is None {
        lemma_first_faulty_at(dir, entries, from + 1);
    }
}

/// A directory loads exactly where every entry is as it must be and no two
/// declare one agent. The registry then holds the declared agents, each as its
/// file has it, and no other.
pub proof fn lemma_loads_where_in_order(dir: Seq<char>, entries: Vec<Entry>, loaded: Loaded)
    requires
        load::load_outcome(dir, Listing::Entries(entries), loaded),
    ensures
        loaded.outcome is Ok <==> {
            &&& forall|i: int| 0 <= i < entries@.len() ==> entry_in_order(#[trigger] entries@[i])
            &&& forall|i: int, j: int|
                #![trigger load::declared(entries@[i]), load::declared(entries@[j])]
                0 <= i < j < entries@.len() && load::declared(entries@[i]) is Some
                    && load::declared(entries@[j]) is Some ==> load::declared(
                    entries@[i],
                )->0.agent_id != load::declared(entries@[j])->0.agent_id
        },
        loaded.outcome is Ok ==> forall|i: int|
            0 <= i < entries@.len() && (#[trigger] load::declared(entries@[i])) is Some ==> {
                let c = load::declared(entries@[i])->0;
                loaded.outcome->Ok_0@.dom().contains(c.agent_id)
                    && loaded.outcome->Ok_0@[c.agent_id] == c
            },
        loaded.outcome is Ok ==> forall|id: Seq<char>| #[trigger]
            loaded.outcome->Ok_0@.dom().contains(id) ==> exists|i: int|
                0 <= i < entries@.len() && (#[trigger] load::declared(entries@[i])) is Some
                    && load::declared(entries@[i])->0.agent_id == id,
        loaded.outcome is Ok ==> loaded.outcome->Ok_0.directory() == dir,
        loaded.outcome is Err ==> loaded.outcome->Err_0 is Config,
{
    let s = entries@;
    let n = s.len() as int;
    lemma_first_faulty_at(dir, s, 0);
    let k = load::first_faulty(dir, s, 0);
    assert forall|i: int| 0 <= i < n implies (load::entry_fault(dir, s, i) is None <==> (
    entry_in_order(#[trigger] s[i]) && (load::declared(s[i]) is Some ==> !load::declared_agents(
        s,
        i,
    ).dom().contains(load::declared(s[i])->0.agent_id)))) by {
        lemma_fault_at(dir, s, i);
    }
    assert forall|i: int, id: Seq<char>|
        #![trigger load::declared_agents(s, i).dom().contains(id)]
        0 <= i <= n implies (load::declared_agents(s, i).dom().contains(id) <==> exists|j: int|
        0 <= j < i && (#[trigger] load::declared(s[j])) is Some && load::declared(
            s[j],
        )->0.agent_id == id) by {
        lemma_declared_up_to(s, i, id);
    }
    if loaded.outcome is Ok {
        assert(k == n);
        assert forall|i: int| 0 <= i < n implies entry_in_order(#[trigger] s[i]) by {
            assert(load::entry_fault(dir, s, i) is None);
        }
        assert forall|i: int, j: int|
            #![trigger load::declared(s[i]), load::declared(s[j])]
            0 <= i < j < n && load::declared(s[i]) is Some && load::declared(s[j]) is Some implies
            load::declared(s[i])->0.agent_id != load::declared(s[j])->0.agent_id by {
            assert(load::entry_fault(dir, s, j) is None);
            assert(entry_in_order(s[j]));
            assert(!load::declared_agents(s, j).dom().contains(load::declared(s[j])->0.agent_id));
        }
        assert forall|i: int| 0 <= i < n && (#[trigger] load::declared(s[i])) is Some implies ({
            let c = load::declared(s[i])->0;
            load::declared_agents(s, n).dom().contains(c.agent_id) && load::declared_agents(s, n)[
                c.agent_id] == c
        }) by {
            lemma_declared_stays(s, i, n);
        }
    } else if forall|i: int| 0 <= i < n ==> entry_in_order(#[trigger] s[i]) {
        assert(k < n);
        assert(load::entry_fault(dir, s, k) is Some);
        assert(entry_in_order(s[k]));
        let id = load::declared(s[k])->0.agent_id;
        assert(load::declared_agents(s, k).dom().contains(id));
        let j = choose|j: int|
            0 <= j < k && (#[trigger] load::declared(s[j])) is Some && load::declared(
                s[j],
            )->0.agent_id == id;
        assert(load::declared(s[j])->0.agent_id == load::declared(s[k])->0.agent_id);
    }
}

proof fn lemma_declared_up_to(s: Seq<Entry>, n: int, id: Seq<char>)
    requires
        0 <= n <= s.len(),
    ensures
        load::declared_agents(s, n).dom().contains(id) <==> exists|j: int|
            0 <= j < n && (#[trigger] load::declared(s[j])) is Some && load::declared(
                s[j],
            )->0.agent_id == id,
    decreases n,
{
    if n > 0 {
        lemma_declared_up_to(s, n - 1, id);
        if load::declared(s[n - 1]) is Some && load::declared(s[n - 1])->0.agent_id == id {
            assert(load::declared_agents(s, n).dom().contains(id));
        }
    }
}

proof fn lemma_declared_stays(s: Seq<Entry>, i: int, n: int)
    requires
        0 <= i < n <= s.len(),
        load::declared(s[i]) is Some,
        forall|j: int|
            i < j < n && (#[trigger] load::declared(s[j])) is Some ==> load::declared(
                s[j],
            )->0.agent_id != load::declared(s[i])->0.agent_id,
    ensures
        ({
            let c = load::declared(s[i])->0;
            load::declared_agents(s, n).dom().contains(c.agent_id) && load::declared_agents(s, n)[
                c.agent_id] == c
        }),
    decreases n,
{
    if i < n - 1 {
        lemma_declared_stays(s, i, n - 1);
        let d = load::declared(s[n - 1]);
        assert(d is Some ==> d->0.agent_id != load::declared(s[i])->0.agent_id);
    }
}

/// A missing directory holds no agents, and one that cannot be listed is an
/// error.
pub proof fn lemma_loads_without_entries(dir: Seq<char>, listing: Listing, loaded: Loaded)
    requires
        load::load_outcome(dir, listing, loaded),
    ensures
        listing is Missing ==> loaded.outcome is Ok && forall|id: Seq<char>|
            !#[trigger] loaded.outcome->Ok_0@.dom().contains(id),
        listing is Unreadable ==> loaded.outcome is Err,
{
}

/// What an entry is warned of: of nothing unless it is a registration that was
/// read, and then of its handler, where that is missing or not executable.
pub proof fn lemma_warned_of_handlers(f: AgentFile)
    ensures
        ({
            let log = load::entry_log(Entry::File(f));
            let read = load::is_agent_file(f.name@) && f.read is Parsed;
            &&& log.len() == if read && !(f.handler_exists && f.handler_executable) {
                1int
            } else {
                0
            }
            &&& log.len() == 1 ==> {
                &&& log[0].level == crate::logging::Level::Warn
                &&& log[0].fields.len() == 1
                &&& log[0].fields[0].value == crate::logging::FieldValueModel::Text(
                    f.read->Parsed_0@.agent_id,
                )
                &&& log[0].message == "handler "@ + text::debug_path(f.read->Parsed_0@.handler) + (
                if f.handler_exists {
                    " is not executable"@
                } else {
                    " does not exist"@
                })
            }
        }),
{
}

/// Anybody may execute a file exactly where one of its three execution bits is
/// set.
pub proof fn lemma_executable(mode: Option<u32>, r: bool)
    requires
        call_ensures(registry::is_executable, (mode,), r),
    ensures
        r <==> mode is Some && (mode->0 & 1 == 1 || mode->0 & 8 == 8 || mode->0 & 64 == 64),
{
    if mode is Some {
        let m = mode->0;
        assert((m & 0o111 != 0) <==> (m & 1 == 1 || m & 8 == 8 || m & 64 == 64)) by (bit_vector);
    }
}

// ---------------------------------------------------------------------------
// Operations
// ---------------------------------------------------------------------------

/// Registering succeeds exactly where the registration is sound, the agent is
/// new and its file was written. It puts in that registration and touches no
/// other; where it fails nothing changes.
pub proof fn lemma_register(
    r: &mut Registry,
    c: AgentConfig,
    persisted: Result<(), AgentdError>,
    out: Result<(), AgentdError>,
    other: Seq<char>,
)
    requires
        old(r).well_formed(),
        call_ensures(Registry::register, (r, &c, persisted), out),
    ensures
        out is Ok <==> persisted is Ok && registry::config_fault(c@) is None
            && !old(r)@.dom().contains(c@.agent_id),
        out is Ok ==> final(r)@.dom().contains(c@.agent_id) && final(r)@[c@.agent_id] == c@,
        other != c@.agent_id || out is Err ==> diff::lookup(final(r)@, other) == diff::lookup(
            old(r)@,
            other,
        ),
        final(r).well_formed(),
        final(r).directory() == old(r).directory(),
{
}

/// Updating succeeds exactly where the registration is sound, the agent is
/// registered and its file was written. It puts in that registration and
/// touches no other; where it fails nothing changes.
pub proof fn lemma_update(
    r: &mut Registry,
    c: AgentConfig,
    persisted: Result<(), AgentdError>,
    out: Result<(), AgentdError>,
    other: Seq<char>,
)
    requires
        old(r).well_formed(),
        call_ensures(Registry::update, (r, &c, persisted), out),
    ensures
        out is Ok <==> persisted is Ok && registry::config_fault(c@) is None
            && old(r)@.dom().contains(c@.agent_id),
        out is Ok ==> final(r)@.dom().contains(c@.agent_id) && final(r)@[c@.agent_id] == c@,
        other != c@.agent_id || out is Err ==> diff::lookup(final(r)@, other) == diff::lookup(
            old(r)@,
            other,
        ),
        final(r).well_formed(),
        final(r).directory() == old(r).directory(),
{
}

/// Switching succeeds exactly where the agent is registered and, unless it is
/// as wanted already, its file was written. The agent is then as wanted, and
/// nothing else of it or of another changes.
pub proof fn lemma_set_enabled(
    r: &mut Registry,
    id: crate::agent_id::AgentId,
    enabled: bool,
    persisted: Result<(), AgentdError>,
    out: Result<(), AgentdError>,
    other: Seq<char>,
)
    requires
        old(r).well_formed(),
        call_ensures(Registry::set_enabled, (r, &id, enabled, persisted), out),
    ensures
        out is Ok <==> old(r)@.dom().contains(id@) && (persisted is Ok || old(r)@[id@].enabled
            == enabled),
        out is Ok ==> final(r)@.dom().contains(id@) && final(r)@[id@].enabled == enabled,
        out is Ok ==> final(r)@[id@].handler == old(r)@[id@].handler,
        out is Ok ==> final(r)@[id@].max_concurrency == old(r)@[id@].max_concurrency,
        out is Ok ==> final(r)@[id@].working_directory == old(r)@[id@].working_directory,
        out is Ok ==> final(r)@[id@].agent_id == old(r)@[id@].agent_id,
        other != id@ || out is Err ==> diff::lookup(final(r)@, other) == diff::lookup(
            old(r)@,
            other,
        ),
        final(r).well_formed(),
        final(r).directory() == old(r).directory(),
{
}

/// Unregistering succeeds exactly where the agent is registered and its file
/// was deleted. It takes that agent out and touches no other; where it fails
/// nothing changes.
pub proof fn lemma_unregister(
    r: &mut Registry,
    id: crate::agent_id::AgentId,
    removed: Result<(), String>,
    out: Result<(), AgentdError>,
    other: Seq<char>,
)
    requires
        old(r).well_formed(),
        call_ensures(Registry::unregister, (r, &id, removed), out),
    ensures
        out is Ok <==> removed is Ok && old(r)@.dom().contains(id@),
        out is Ok ==> !final(r)@.dom().contains(id@),
        other != id@ || out is Err ==> diff::lookup(final(r)@, other) == diff::lookup(
            old(r)@,
            other,
        ),
        final(r).well_formed(),
        final(r).directory() == old(r).directory(),
{
}

/// Registering and then unregistering an agent leaves the registry as it was.
pub proof fn lemma_unregister_undoes_register(
    first: &mut Registry,
    second: &mut Registry,
    c: AgentConfig,
    id: crate::agent_id::AgentId,
)
    requires
        old(first).well_formed(),
        *old(second) == *final(first),
        id@ == c@.agent_id,
        call_ensures(Registry::register, (first, &c, Ok(())), Ok(())),
        call_ensures(Registry::unregister, (second, &id, Ok(())), Ok(())),
    ensures
        final(second)@ == old(first)@,
{
    assert(!old(first)@.dom().contains(c@.agent_id));
    assert(final(second)@ =~= old(first)@);
}

proof fn lemma_keyed(r: Registry)
    requires
        r.well_formed(),
    ensures
        laws::keyed(r@),
{
    assert forall|k: Seq<char>| r@.dom().contains(k) implies (#[trigger] r@[k]).agent_id == k by {
        laws::lemma_registered_agents(r, k);
    }
}

/// A reload fails exactly where loading did, and changes nothing then. Else it
/// takes over what was loaded, and says of each agent what its two
/// registrations differ in.
pub proof fn lemma_reload(
    r: &mut Registry,
    fresh: Result<Registry, AgentdError>,
    out: Result<Vec<registry::Change>, AgentdError>,
    id: Seq<char>,
)
    requires
        old(r).well_formed(),
        fresh is Ok ==> fresh->Ok_0.well_formed(),
        call_ensures(Registry::reload, (r, fresh), out),
    ensures
        out is Ok <==> fresh is Ok,
        out is Err ==> final(r)@ == old(r)@ && out->Err_0 == fresh->Err_0,
        out is Ok ==> final(r)@ == fresh->Ok_0@,
        out is Ok ==> ({
            let changes = registry::changes_view(out->Ok_0@);
            let before = old(r)@.dom().contains(id);
            let after = final(r)@.dom().contains(id);
            let a = old(r)@[id];
            let b = final(r)@[id];
            &&& !before && after ==> changes.contains(ChangeModel::Added(b))
            &&& before && !after ==> changes.contains(ChangeModel::Removed(id))
            &&& before && after && !a.enabled && b.enabled ==> changes.contains(
                ChangeModel::Enabled(b),
            )
            &&& before && after && a.enabled && !b.enabled ==> changes.contains(
                ChangeModel::Disabled(b),
            )
            &&& before && after && a.enabled == b.enabled ==> (changes.contains(
                ChangeModel::Updated(b),
            ) <==> differ(a, b))
            &&& diff::mentions(changes, id) <==> before != after || (before && after && (a.enabled
                != b.enabled || differ(a, b)))
        }),
        final(r).well_formed(),
        final(r).directory() == old(r).directory(),
{
    if out is Ok {
        let changes = registry::changes_view(out->Ok_0@);
        lemma_keyed(*old(r));
        lemma_keyed(*final(r));
        lemma_changes_by_fields(old(r)@, final(r)@, changes, id);
        if old(r)@.dom().contains(id) != final(r)@.dom().contains(id) {
            assert(diff::mentions(changes, id));
        }
    }
}

/// Loading gives what the entries of the directory declare, as told above.
pub proof fn lemma_load(dir: &str, entries: Vec<Entry>, loaded: Loaded)
    requires
        call_ensures(Registry::load, (dir, Listing::Entries(entries)), loaded),
    ensures
        loaded.outcome is Ok <==> {
            &&& forall|i: int| 0 <= i < entries@.len() ==> entry_in_order(#[trigger] entries@[i])
            &&& forall|i: int, j: int|
                #![trigger load::declared(entries@[i]), load::declared(entries@[j])]
                0 <= i < j < entries@.len() && load::declared(entries@[i]) is Some
                    && load::declared(entries@[j]) is Some ==> load::declared(
                    entries@[i],
                )->0.agent_id != load::declared(entries@[j])->0.agent_id
        },
        loaded.outcome is Ok ==> loaded.outcome->Ok_0.directory() == dir@,
{
    lemma_loads_where_in_order(dir@, entries, loaded);
}

/// An entry declares an agent exactly where it is a file named as a
/// registration that was read as one.
pub proof fn lemma_declares(e: Entry)
    ensures
        load::declared(e) is Some <==> (e matches Entry::File(f) && f.read is Parsed
            && load::is_agent_file(f.name@)),
        load::declared(e) is Some ==> load::declared(e)->0 == e->File_0.read->Parsed_0@,
{
}

/// Unregistering is possible exactly where the agent is registered; and why not
/// is said of that agent.
pub proof fn lemma_checked_unregister(agents: Registry, id: AgentId, r: Result<(), AgentdError>)
    requires
        agents.well_formed(),
        call_ensures(Registry::check_unregister, (&agents, &id), r),
    ensures
        r is Ok <==> agents@.dom().contains(id@),
        r is Err ==> r->Err_0 is Config && r->Err_0->Config_0@ == "agent "@ + id@
            + " is not registered"@,
{
}

/// A registry that nothing was put into holds nobody, and is of its directory.
pub proof fn lemma_empty(dir: &str, agents: Registry, id: Seq<char>)
    requires
        call_ensures(Registry::empty, (dir,), agents),
    ensures
        !agents@.dom().contains(id),
        agents.directory() == dir@,
        agents.well_formed(),
{
}

/// A change is about the agent whose registration it holds.
pub proof fn lemma_changed_agent(change: Change, id: AgentId)
    requires
        call_ensures(Change::agent_id, (&change,), id),
    ensures
        match change {
            Change::Added(c) | Change::Updated(c) => id@ == c.agent_id@,
            Change::Enabled(c) | Change::Disabled(c) => id@ == c.agent_id@,
            Change::Removed(gone) => id@ == gone@,
        },
{
}

/// A handler is warned of exactly where it is not there or cannot be executed:
/// once, and by its path. That it is not there goes first.
pub proof fn lemma_handler_warnings(c: AgentConfig, there: bool, executable: bool, r: Vec<String>)
    requires
        call_ensures(AgentConfig::liveness_warnings, (&c, there, executable), r),
    ensures
        r@.len() == 0 <==> there && executable,
        r@.len() <= 1,
        !there ==> r@[0]@ == "handler "@ + text::debug_path(c.handler@) + " does not exist"@,
        there && !executable ==> r@[0]@ == "handler "@ + text::debug_path(c.handler@)
            + " is not executable"@,
{
    let t = text::texts(r@);
    assert(t.len() == r@.len());
    if r@.len() == 1 {
        assert(t[0] == r@[0]@);
    }
}

/// A registration is modelled by its fields.
pub proof fn lemma_fields(c: AgentConfig)
    ensures
        c@.agent_id == c.agent_id@,
        c@.handler == c.handler@,
        c@.max_concurrency == c.max_concurrency,
        c@.enabled == c.enabled,
        c@.working_directory is Some <==> c.working_directory is Some,
        c@.working_directory is Some ==> c@.working_directory->0 == c.working_directory->0@,
{
}

/// A change is modelled as the change that it is, of the registration it holds.
pub proof fn lemma_change_fields(change: Change)
    ensures
        match change {
            Change::Added(c) => change@ is Added && change@->Added_0 == c@,
            Change::Updated(c) => change@ is Updated && change@->Updated_0 == c@,
            Change::Enabled(c) => change@ is Enabled && change@->Enabled_0 == c@,
            Change::Disabled(c) => change@ is Disabled && change@->Disabled_0 == c@,
            Change::Removed(id) => change@ is Removed && change@->Removed_0 == id@,
        },
{
}

/// A copy of a registration is that registration.
pub proof fn lemma_copied(c: AgentConfig, r: AgentConfig)
    requires
        call_ensures(AgentConfig::clone, (&c,), r),
    ensures
        r.agent_id@ == c.agent_id@,
        r.handler@ == c.handler@,
        r.max_concurrency == c.max_concurrency,
        r.enabled == c.enabled,
        r@.working_directory == c@.working_directory,
{
}

} // verus!
