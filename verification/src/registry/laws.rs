//! Laws of the registry.

use vstd::prelude::*;

use crate::agent_id;
use crate::files::FileRead;
use crate::registry;
use crate::registry::diff;
use crate::registry::listing;
use crate::registry::load;
use crate::registry::load::{Entry, Listing, Loaded};
use crate::registry::{AgentConfigModel, ChangeModel, Registry};
use crate::text;

verus! {

/// Every agent is registered under its own id, and no registration is
/// structurally wrong.
pub proof fn lemma_registered_agents(registry: Registry, id: Seq<char>)
    requires
        registry.well_formed(),
        registry@.dom().contains(id),
    ensures
        registry@[id].agent_id == id,
        registry::config_fault(registry@[id]) is None,
{
    let s = listing::configs_view(registry.agents@);
    let p = listing::place(s, id);
    assert(s[p].agent_id == id);
    listing::lemma_place(s, p);
}

/// A state with changes applied to it, one after the other.
pub open spec fn patched(
    agents: Map<Seq<char>, AgentConfigModel>,
    changes: Seq<ChangeModel>,
) -> Map<Seq<char>, AgentConfigModel>
    decreases changes.len(),
{
    if changes.len() == 0 {
        agents
    } else {
        let before = patched(agents, changes.drop_last());
        match changes.last() {
            ChangeModel::Added(c) => before.insert(c.agent_id, c),
            ChangeModel::Updated(c) => before.insert(c.agent_id, c),
            ChangeModel::Enabled(c) => before.insert(c.agent_id, c),
            ChangeModel::Disabled(c) => before.insert(c.agent_id, c),
            ChangeModel::Removed(id) => before.remove(id),
        }
    }
}

/// Every agent stands under its own id.
pub open spec fn keyed(agents: Map<Seq<char>, AgentConfigModel>) -> bool {
    forall|id: Seq<char>|
        agents.dom().contains(id) ==> (#[trigger] agents[id]).agent_id == id
}

/// Whether two states have the same agents, and their registrations agree.
pub open spec fn states_agree(
    a: Map<Seq<char>, AgentConfigModel>,
    b: Map<Seq<char>, AgentConfigModel>,
) -> bool {
    &&& a.dom() == b.dom()
    &&& forall|id: Seq<char>| #[trigger] b.dom().contains(id) ==> registry::agree(a[id], b[id])
}

/// What a change leaves of the agent it is about.
spec fn left_by(c: ChangeModel) -> Option<AgentConfigModel> {
    match c {
        ChangeModel::Added(a) => Some(a),
        ChangeModel::Updated(a) => Some(a),
        ChangeModel::Enabled(a) => Some(a),
        ChangeModel::Disabled(a) => Some(a),
        ChangeModel::Removed(_) => None,
    }
}

proof fn lemma_patched_at(
    agents: Map<Seq<char>, AgentConfigModel>,
    changes: Seq<ChangeModel>,
    id: Seq<char>,
)
    requires
        diff::in_id_order(changes),
    ensures
        !diff::mentions(changes, id)
            ==> diff::lookup(patched(agents, changes), id) == diff::lookup(agents, id),
        forall|k: int|
            0 <= k < changes.len() && (#[trigger] changes[k]).agent() == id ==> diff::lookup(
                patched(agents, changes),
                id,
            ) == left_by(changes[k]),
    decreases changes.len(),
{
    if changes.len() > 0 {
        let front = changes.drop_last();
        let n = changes.len() - 1;
        assert forall|i: int, j: int|
            #![trigger front[i], front[j]]
            0 <= i < j < front.len() implies text::lex_lt(front[i].agent(), front[j].agent()) by {
            assert(front[i] == changes[i] && front[j] == changes[j]);
        }
        lemma_patched_at(agents, front, id);
        if !diff::mentions(changes, id) {
            assert(changes[n].agent() != id);
            if diff::mentions(front, id) {
                let k = choose|k: int| 0 <= k < front.len() && (#[trigger] front[k]).agent() == id;
                assert(changes[k].agent() == id);
            }
        }
        assert forall|k: int| 0 <= k < changes.len() && (#[trigger] changes[k]).agent() == id implies
            diff::lookup(patched(agents, changes), id) == left_by(changes[k]) by {
            if k < n {
                assert(front[k] == changes[k]);
                text::lemma_lex_irreflexive(id);
                assert(text::lex_lt(changes[k].agent(), changes[n].agent()));
            }
        }
    }
}

/// The changes of a reload lead from the old state to the new one: applied to
/// the old state they give the new state, no more and no less. An agent without
/// a change is left as it was, which agrees with the new state.
pub proof fn lemma_diff_patches(
    old_agents: Map<Seq<char>, AgentConfigModel>,
    new_agents: Map<Seq<char>, AgentConfigModel>,
    changes: Seq<ChangeModel>,
)
    requires
        keyed(old_agents),
        keyed(new_agents),
        diff::is_diff(old_agents, new_agents, changes),
    ensures
        states_agree(patched(old_agents, changes), new_agents),
        forall|id: Seq<char>|
            new_agents.dom().contains(id) && #[trigger] diff::mentions(changes, id) ==> patched(
                old_agents,
                changes,
            )[id] == new_agents[id],
{
    let result = patched(old_agents, changes);
    assert forall|id: Seq<char>|
        #![trigger new_agents.dom().contains(id)]
        #![trigger result.dom().contains(id)]
        result.dom().contains(id) == new_agents.dom().contains(id) && (new_agents.dom().contains(id)
            ==> registry::agree(result[id], new_agents[id])) && (new_agents.dom().contains(id)
            && diff::mentions(changes, id) ==> result[id] == new_agents[id]) by {
        lemma_patched_at(old_agents, changes, id);
        let was = diff::lookup(old_agents, id);
        let is = diff::lookup(new_agents, id);
        let now = diff::lookup(result, id);
        if diff::mentions(changes, id) {
            let k = choose|k: int| 0 <= k < changes.len() && (#[trigger] changes[k]).agent() == id;
            assert(diff::change_for(was, is) == Some(changes[k]));
            assert(now == is);
        } else {
            assert(diff::change_for(was, is) is None);
            assert(now == was);
        }
    }
    assert(result.dom() =~= new_agents.dom());
}

/// Nothing changes between a state and itself.
pub proof fn lemma_no_change(
    agents: Map<Seq<char>, AgentConfigModel>,
    changes: Seq<ChangeModel>,
)
    requires
        diff::is_diff(agents, agents, changes),
    ensures
        changes.len() == 0,
{
    if changes.len() > 0 {
        assert(diff::change_for(
            diff::lookup(agents, changes[0].agent()),
            diff::lookup(agents, changes[0].agent()),
        ) == Some(changes[0]));
    }
}

/// Different agents are kept in different files.
pub proof fn lemma_files_differ(dir: Seq<char>, a: Seq<char>, b: Seq<char>)
    requires
        registry::file_of(dir, a) == registry::file_of(dir, b),
    ensures
        a == b,
{
    text::lemma_joined_injective(dir, a + ".toml"@, b + ".toml"@);
    assert((a + ".toml"@).len() == (b + ".toml"@).len());
    assert(a =~= (a + ".toml"@).take(a.len() as int));
    assert(b =~= (b + ".toml"@).take(b.len() as int));
}

/// The directory holds one file for each of the agents, named after it and
/// declaring it, and otherwise only files that are no registrations.
pub open spec fn holds(entries: Seq<Entry>, agents: Map<Seq<char>, AgentConfigModel>) -> bool {
    &&& forall|i: int|
        0 <= i < entries.len() ==> match #[trigger] entries[i] {
            Entry::File(f) => load::is_agent_file(f.name@) ==> match f.read {
                FileRead::Parsed(c) => {
                    &&& agents.dom().contains(c@.agent_id)
                    &&& agents[c@.agent_id] == c@
                    &&& f.name@ == c@.agent_id + ".toml"@
                },
                _ => false,
            },
            Entry::Failed(_) => false,
        }
    &&& forall|i: int, j: int|
        #![trigger load::declared(entries[i]), load::declared(entries[j])]
        0 <= i < j < entries.len() && load::declared(entries[i]) is Some && load::declared(entries[j]) is Some
            ==> load::declared(entries[i])->0.agent_id != load::declared(entries[j])->0.agent_id
    &&& forall|id: Seq<char>|
        #[trigger] agents.dom().contains(id) ==> exists|i: int|
            0 <= i < entries.len() && #[trigger] load::declared(entries[i]) == Some(agents[id])
}

proof fn lemma_declared_agents(
    entries: Seq<Entry>,
    agents: Map<Seq<char>, AgentConfigModel>,
    n: int,
    id: Seq<char>,
)
    requires
        keyed(agents),
        holds(entries, agents),
        0 <= n <= entries.len(),
    ensures
        load::declared_agents(entries, n).dom().contains(id) <==> exists|i: int|
            0 <= i < n && (#[trigger] load::declared(entries[i])) is Some && load::declared(
                entries[i],
            )->0.agent_id == id,
        load::declared_agents(entries, n).dom().contains(id) ==> agents.dom().contains(id)
            && load::declared_agents(entries, n)[id] == agents[id],
    decreases n,
{
    if n > 0 {
        lemma_declared_agents(entries, agents, n - 1, id);
        assert(entries[n - 1] == entries[n - 1]);
        let d = load::declared(entries[n - 1]);
        if load::declared_agents(entries, n).dom().contains(id) {
            if d is Some && d->0.agent_id == id {
            } else {
                assert(load::declared_agents(entries, n - 1).dom().contains(id));
            }
        }
        if exists|i: int|
            0 <= i < n && (#[trigger] load::declared(entries[i])) is Some && load::declared(
                entries[i],
            )->0.agent_id == id {
            let i = choose|i: int|
                0 <= i < n && (#[trigger] load::declared(entries[i])) is Some && load::declared(
                    entries[i],
                )->0.agent_id == id;
            if i < n - 1 {
                assert(load::declared_agents(entries, n - 1).dom().contains(id));
            }
        }
    }
}

proof fn lemma_no_faulty(
    dir: Seq<char>,
    entries: Seq<Entry>,
    agents: Map<Seq<char>, AgentConfigModel>,
    from: int,
)
    requires
        keyed(agents),
        forall|id: Seq<char>|
            #[trigger] agents.dom().contains(id) ==> registry::config_fault(agents[id]) is None,
        holds(entries, agents),
        0 <= from <= entries.len(),
    ensures
        load::first_faulty(dir, entries, from) == entries.len(),
    decreases entries.len() - from,
{
    if from < entries.len() {
        let e = entries[from];
        match e {
            Entry::Failed(_) => {},
            Entry::File(f) => {
                if load::is_agent_file(f.name@) {
                    match f.read {
                        FileRead::Parsed(c) => {
                            let id = c@.agent_id;
                            assert(load::declared(e) == Some(c@));
                            lemma_declared_agents(entries, agents, from, id);
                            assert(load::stem_of(f.name@) =~= id);
                            if load::declared_agents(entries, from).dom().contains(id) {
                                let i = choose|i: int|
                                    0 <= i < from && (#[trigger] load::declared(entries[i])) is Some
                                        && load::declared(entries[i])->0.agent_id == id;
                                assert(load::declared(entries[i])->0.agent_id != load::declared(
                                    entries[from],
                                )->0.agent_id);
                            }
                        },
                        _ => {},
                    }
                }
            },
        }
        lemma_no_faulty(dir, entries, agents, from + 1);
    }
}

/// Loading gives back what was kept: from a directory that holds exactly the
/// given agents, in whatever order it lists them and whatever else lies
/// beside them, the registry of those agents is loaded.
pub proof fn lemma_load_gives_back(
    dir: Seq<char>,
    entries: Vec<Entry>,
    agents: Map<Seq<char>, AgentConfigModel>,
    loaded: Loaded,
)
    requires
        keyed(agents),
        forall|id: Seq<char>|
            #[trigger] agents.dom().contains(id) ==> registry::config_fault(agents[id]) is None,
        holds(entries@, agents),
        load::load_outcome(dir, Listing::Entries(entries), loaded),
    ensures
        loaded.outcome matches Ok(r) && r@ == agents,
{
    let n = entries@.len() as int;
    lemma_no_faulty(dir, entries@, agents, 0);
    let result = load::declared_agents(entries@, n);
    assert forall|id: Seq<char>| result.dom().contains(id) <==> agents.dom().contains(id) by {
        lemma_declared_agents(entries@, agents, n, id);
        if agents.dom().contains(id) {
            let i = choose|i: int|
                0 <= i < entries@.len() && #[trigger] load::declared(entries@[i]) == Some(agents[id]);
            assert(agents[id].agent_id == id);
            assert(load::declared(entries@[i]) is Some);
        }
    }
    assert forall|id: Seq<char>| result.dom().contains(id) implies result[id] == agents[id] by {
        lemma_declared_agents(entries@, agents, n, id);
    }
    assert(result =~= agents);
}

// ---------------------------------------------------------------------------
// The registry and its directory
// ---------------------------------------------------------------------------

/// One operation on the registry, with whether its file could be written or
/// deleted.
pub enum Operation {
    Register { config: AgentConfigModel, on_disk: bool },
    Update { config: AgentConfigModel, on_disk: bool },
    SetEnabled { id: Seq<char>, enabled: bool, on_disk: bool },
    Unregister { id: Seq<char>, on_disk: bool },
}

/// The agents in memory, and the registrations on disk by file name. A file is
/// replaced in one move, so a write that fails leaves the old one.
pub struct Kept {
    pub agents: Map<Seq<char>, AgentConfigModel>,
    pub files: Map<Seq<char>, AgentConfigModel>,
}

/// The name of the file that an agent is kept in.
pub open spec fn name_of(id: Seq<char>) -> Seq<char> {
    id + ".toml"@
}

/// A registration is written, and then taken into memory.
pub open spec fn with_written(k: Kept, config: AgentConfigModel) -> Kept {
    Kept {
        agents: k.agents.insert(config.agent_id, config),
        files: k.files.insert(name_of(config.agent_id), config),
    }
}

/// What an operation makes of memory and disk: of memory what the registry
/// does, of the disk the one file that is written or deleted beforehand.
pub open spec fn operated(k: Kept, op: Operation) -> Kept {
    match op {
        Operation::Register { config, on_disk } => if registry::register_fault(
            k.agents,
            config,
        ) is None && on_disk {
            with_written(k, config)
        } else {
            k
        },
        Operation::Update { config, on_disk } => if registry::update_fault(
            k.agents,
            config,
        ) is None && on_disk {
            with_written(k, config)
        } else {
            k
        },
        Operation::SetEnabled { id, enabled, on_disk } => if k.agents.dom().contains(id)
            && k.agents[id].enabled != enabled && on_disk {
            with_written(k, AgentConfigModel { enabled, ..k.agents[id] })
        } else {
            k
        },
        Operation::Unregister { id, on_disk } => if k.agents.dom().contains(id) && on_disk {
            Kept { agents: k.agents.remove(id), files: k.files.remove(name_of(id)) }
        } else {
            k
        },
    }
}

/// Whether an operation is on an agent with a valid id, as all ids are.
pub open spec fn on_valid_id(op: Operation) -> bool {
    match op {
        Operation::Register { config, .. } => agent_id::valid_agent_id(config.agent_id),
        Operation::Update { config, .. } => agent_id::valid_agent_id(config.agent_id),
        Operation::SetEnabled { id, .. } => agent_id::valid_agent_id(id),
        Operation::Unregister { id, .. } => agent_id::valid_agent_id(id),
    }
}

/// What a list of operations makes of memory and disk.
pub open spec fn operated_all(k: Kept, ops: Seq<Operation>) -> Kept
    decreases ops.len(),
{
    if ops.len() == 0 {
        k
    } else {
        operated(operated_all(k, ops.drop_last()), ops.last())
    }
}

/// Whether memory and disk hold the same valid registrations, each agent under
/// its own id and in its own file.
pub open spec fn in_step(k: Kept) -> bool {
    &&& keyed(k.agents)
    &&& forall|id: Seq<char>| #[trigger]
        k.agents.dom().contains(id) ==> agent_id::valid_agent_id(id) && registry::config_fault(
            k.agents[id],
        ) is None
    &&& forall|id: Seq<char>| #[trigger]
        k.agents.dom().contains(id) ==> k.files.dom().contains(name_of(id))
            && k.files[name_of(id)] == k.agents[id]
    &&& forall|name: Seq<char>| #[trigger]
        k.files.dom().contains(name) ==> k.agents.dom().contains(k.files[name].agent_id) && name
            == name_of(k.files[name].agent_id)
}

proof fn lemma_names_differ(a: Seq<char>, b: Seq<char>)
    requires
        name_of(a) == name_of(b),
    ensures
        a == b,
{
    let name = name_of(a);
    assert(name.len() == a.len() + ".toml"@.len() && name.len() == b.len() + ".toml"@.len());
    assert(a =~= name.take(a.len() as int));
    assert(b =~= name.take(b.len() as int));
}

proof fn lemma_written_in_step(k: Kept, config: AgentConfigModel)
    requires
        in_step(k),
        agent_id::valid_agent_id(config.agent_id),
        registry::config_fault(config) is None,
    ensures
        in_step(with_written(k, config)),
{
    let n = with_written(k, config);
    assert forall|id: Seq<char>| #[trigger] n.agents.dom().contains(id) implies n.files.dom().contains(
        name_of(id),
    ) && n.files[name_of(id)] == n.agents[id] by {
        if id != config.agent_id {
            assert(k.agents.dom().contains(id));
            if name_of(id) == name_of(config.agent_id) {
                lemma_names_differ(id, config.agent_id);
            }
        }
    }
    assert forall|name: Seq<char>| #[trigger] n.files.dom().contains(name) implies (
    n.agents.dom().contains(n.files[name].agent_id) && name == name_of(n.files[name].agent_id)) by {
        if name != name_of(config.agent_id) {
            assert(k.files.dom().contains(name));
        }
    }
}

proof fn lemma_operated_in_step(k: Kept, op: Operation)
    requires
        in_step(k),
        on_valid_id(op),
    ensures
        in_step(operated(k, op)),
{
    let n = operated(k, op);
    match op {
        Operation::Register { config, on_disk } => {
            if registry::register_fault(k.agents, config) is None && on_disk {
                lemma_written_in_step(k, config);
            }
        },
        Operation::Update { config, on_disk } => {
            if registry::update_fault(k.agents, config) is None && on_disk {
                lemma_written_in_step(k, config);
            }
        },
        Operation::SetEnabled { id, enabled, on_disk } => {
            if k.agents.dom().contains(id) && k.agents[id].enabled != enabled && on_disk {
                assert(registry::config_fault(k.agents[id]) is None);
                lemma_written_in_step(k, AgentConfigModel { enabled, ..k.agents[id] });
            }
        },
        Operation::Unregister { id, on_disk } => {
            if k.agents.dom().contains(id) && on_disk {
                assert forall|other: Seq<char>| #[trigger]
                    n.agents.dom().contains(other) implies n.files.dom().contains(name_of(other))
                    && n.files[name_of(other)] == n.agents[other] by {
                    assert(k.agents.dom().contains(other));
                    if name_of(other) == name_of(id) {
                        lemma_names_differ(other, id);
                    }
                }
                assert forall|name: Seq<char>| #[trigger]
                    n.files.dom().contains(name) implies n.agents.dom().contains(
                    n.files[name].agent_id,
                ) && name == name_of(n.files[name].agent_id) by {
                    assert(k.files.dom().contains(name));
                }
            }
        },
    }
}

/// Memory and disk stay in step, whatever is done and however the writing goes.
pub proof fn lemma_always_in_step(k: Kept, ops: Seq<Operation>)
    requires
        in_step(k),
        forall|i: int| 0 <= i < ops.len() ==> on_valid_id(#[trigger] ops[i]),
    ensures
        in_step(operated_all(k, ops)),
    decreases ops.len(),
{
    if ops.len() > 0 {
        assert forall|i: int| 0 <= i < ops.drop_last().len() implies on_valid_id(
            #[trigger] ops.drop_last()[i],
        ) by {
            assert(ops.drop_last()[i] == ops[i]);
        }
        assert(on_valid_id(ops[ops.len() - 1]));
        lemma_always_in_step(k, ops.drop_last());
        lemma_operated_in_step(operated_all(k, ops.drop_last()), ops.last());
    }
}

/// Whether the entries of the directory are the files that were written, each
/// once and read back as it was written, beside files that are no
/// registrations. An agent's file is such an entry where its name is a single
/// one, without a slash.
pub open spec fn are_files(entries: Seq<Entry>, files: Map<Seq<char>, AgentConfigModel>) -> bool {
    &&& forall|i: int|
        0 <= i < entries.len() ==> match #[trigger] entries[i] {
            Entry::File(f) => load::is_agent_file(f.name@) ==> files.dom().contains(f.name@) && (
            f.read matches FileRead::Parsed(c) && c@ == files[f.name@]),
            Entry::Failed(_) => false,
        }
    &&& forall|i: int, j: int|
        #![trigger entries[i], entries[j]]
        0 <= i < j < entries.len() ==> entries[i]->File_0.name@ != entries[j]->File_0.name@
    &&& forall|name: Seq<char>| #[trigger]
        files.dom().contains(name) ==> exists|i: int|
            0 <= i < entries.len() && (#[trigger] entries[i])->File_0.name@ == name
}

proof fn lemma_none_faulty(dir: Seq<char>, entries: Seq<Entry>, from: int, i: int)
    requires
        0 <= from <= i < entries.len(),
        load::first_faulty(dir, entries, from) >= entries.len(),
    ensures
        load::entry_fault(dir, entries, i) is None,
    decreases entries.len() - from,
{
    if from < i {
        lemma_none_faulty(dir, entries, from + 1, i);
    }
}

proof fn lemma_declared_by(entries: Seq<Entry>, n: int, id: Seq<char>)
    requires
        0 <= n <= entries.len(),
    ensures
        load::declared_agents(entries, n).dom().contains(id) ==> exists|i: int|
            0 <= i < n && (#[trigger] load::declared(entries[i])) == Some(
                load::declared_agents(entries, n)[id],
            ) && load::declared_agents(entries, n)[id].agent_id == id,
        forall|i: int|
            0 <= i < n && (#[trigger] load::declared(entries[i])) is Some ==> load::declared_agents(
                entries,
                n,
            ).dom().contains(load::declared(entries[i])->0.agent_id),
    decreases n,
{
    if n > 0 {
        lemma_declared_by(entries, n - 1, id);
        if load::declared_agents(entries, n).dom().contains(id) {
            match load::declared(entries[n - 1]) {
                Some(c) if c.agent_id == id => {
                    assert(load::declared(entries[n - 1]) == Some(
                        load::declared_agents(entries, n)[id],
                    ));
                },
                _ => {
                    let i = choose|i: int|
                        0 <= i < n - 1 && (#[trigger] load::declared(entries[i])) == Some(
                            load::declared_agents(entries, n - 1)[id],
                        );
                    assert(load::declared(entries[i]) == Some(
                        load::declared_agents(entries, n)[id],
                    ));
                },
            }
        }
    }
}

/// Once the registry was loaded, memory and disk are in step.
pub proof fn lemma_loaded_in_step(
    dir: Seq<char>,
    entries: Vec<Entry>,
    files: Map<Seq<char>, AgentConfigModel>,
    loaded: Loaded,
)
    requires
        are_files(entries@, files),
        forall|name: Seq<char>| #[trigger]
            files.dom().contains(name) ==> load::is_agent_file(name) && agent_id::valid_agent_id(
                files[name].agent_id,
            ),
        load::load_outcome(dir, Listing::Entries(entries), loaded),
        loaded.outcome is Ok,
    ensures
        in_step(Kept { agents: loaded.outcome->Ok_0@, files }),
{
    let s = entries@;
    let n = s.len() as int;
    let k = Kept { agents: loaded.outcome->Ok_0@, files };
    assert(k.agents == load::declared_agents(s, n));
    assert forall|i: int| 0 <= i < s.len() && (#[trigger] load::declared(s[i])) is Some implies ({
        let c = load::declared(s[i])->0;
        &&& s[i]->File_0.name@ == name_of(c.agent_id)
        &&& files.dom().contains(name_of(c.agent_id))
        &&& files[name_of(c.agent_id)] == c
        &&& registry::config_fault(c) is None
    }) by {
        let c = load::declared(s[i])->0;
        let name = s[i]->File_0.name@;
        lemma_none_faulty(dir, s, 0, i);
        assert(load::declaration_fault(
            text::joined(dir, name),
            name,
            c,
            load::declared_agents(s, i),
        ) is None);
        assert(name =~= load::stem_of(name) + ".toml"@) by {
            assert(name.skip(name.len() - ".toml"@.len()) == ".toml"@);
            assert(name =~= name.take(name.len() - ".toml"@.len()) + name.skip(
                name.len() - ".toml"@.len(),
            ));
        }
    }
    assert forall|id: Seq<char>| #[trigger] k.agents.dom().contains(id) implies (k.agents[id].agent_id
        == id && agent_id::valid_agent_id(id) && registry::config_fault(k.agents[id]) is None
        && files.dom().contains(name_of(id)) && files[name_of(id)] == k.agents[id]) by {
        lemma_declared_by(s, n, id);
        let i = choose|i: int|
            0 <= i < n && (#[trigger] load::declared(s[i])) == Some(k.agents[id])
                && k.agents[id].agent_id == id;
        assert(load::declared(s[i]) is Some);
    }
    assert forall|name: Seq<char>| #[trigger] files.dom().contains(name) implies (
    k.agents.dom().contains(files[name].agent_id) && name == name_of(files[name].agent_id)) by {
        let i = choose|i: int| 0 <= i < s.len() && (#[trigger] s[i])->File_0.name@ == name;
        assert(load::declared(s[i]) == Some(files[name]));
        lemma_declared_by(s, n, files[name].agent_id);
    }
}

/// Whatever was done since memory and disk were in step, a reload finds nothing
/// to do: it succeeds, reports no change and leaves the registry as it is. So a
/// second reload in a row finds nothing either.
pub proof fn lemma_reload_finds_nothing(
    k: Kept,
    ops: Seq<Operation>,
    dir: Seq<char>,
    entries: Vec<Entry>,
    loaded: Loaded,
    changes: Seq<ChangeModel>,
)
    requires
        in_step(k),
        forall|i: int| 0 <= i < ops.len() ==> on_valid_id(#[trigger] ops[i]),
        are_files(entries@, operated_all(k, ops).files),
        load::load_outcome(dir, Listing::Entries(entries), loaded),
        loaded.outcome matches Ok(fresh) ==> diff::is_diff(
            operated_all(k, ops).agents,
            fresh@,
            changes,
        ),
    ensures
        loaded.outcome matches Ok(fresh) && fresh@ == operated_all(k, ops).agents,
        changes.len() == 0,
{
    let n = operated_all(k, ops);
    let s = entries@;
    lemma_always_in_step(k, ops);
    assert forall|i: int| 0 <= i < s.len() && load::declared(#[trigger] s[i]) is Some implies (
    n.agents.dom().contains(load::declared(s[i])->0.agent_id)
        && n.agents[load::declared(s[i])->0.agent_id] == load::declared(s[i])->0
        && s[i]->File_0.name@ == name_of(load::declared(s[i])->0.agent_id)) by {
        let name = s[i]->File_0.name@;
        assert(n.files.dom().contains(name));
        assert(n.agents.dom().contains(n.files[name].agent_id));
    }
    assert(holds(s, n.agents)) by {
        assert forall|i: int, j: int|
            #![trigger load::declared(s[i]), load::declared(s[j])]
            0 <= i < j < s.len() && load::declared(s[i]) is Some && load::declared(s[j]) is Some
            implies load::declared(s[i])->0.agent_id != load::declared(s[j])->0.agent_id by {
            assert(s[i]->File_0.name@ != s[j]->File_0.name@);
        }
        assert forall|id: Seq<char>| #[trigger] n.agents.dom().contains(id) implies exists|i: int|
            0 <= i < s.len() && #[trigger] load::declared(s[i]) == Some(n.agents[id]) by {
            assert(n.files.dom().contains(name_of(id)));
            let i = choose|i: int|
                0 <= i < s.len() && (#[trigger] s[i])->File_0.name@ == name_of(id);
            agent_id::lemma_id_nonempty(id);
            assert(name_of(id).skip(id.len() as int) =~= ".toml"@);
            assert(load::is_agent_file(name_of(id)));
            assert(load::declared(s[i]) == Some(n.agents[id]));
        }
        assert forall|i: int| 0 <= i < s.len() implies match #[trigger] s[i] {
            Entry::File(f) => load::is_agent_file(f.name@) ==> match f.read {
                FileRead::Parsed(c) => {
                    &&& n.agents.dom().contains(c@.agent_id)
                    &&& n.agents[c@.agent_id] == c@
                    &&& f.name@ == c@.agent_id + ".toml"@
                },
                _ => false,
            },
            Entry::Failed(_) => false,
        } by {
            if let Entry::File(f) = s[i] {
                if load::is_agent_file(f.name@) {
                    assert(load::declared(s[i]) is Some);
                }
            }
        }
    }
    lemma_load_gives_back(dir, entries, n.agents, loaded);
    lemma_no_change(n.agents, changes);
}

} // verus!
