//! Differences between two states of the registry.

use vstd::prelude::*;

use crate::error::AgentdError;
use crate::registry;
use crate::registry::listing;
use crate::registry::{AgentConfig, AgentConfigModel, Change, ChangeModel, Registry};
use crate::text;
use crate::text::Relation;

verus! {

/// The registration of an agent, if it has one.
pub open spec fn lookup(agents: Map<Seq<char>, AgentConfigModel>, id: Seq<char>) -> Option<
    AgentConfigModel,
> {
    if agents.dom().contains(id) {
        Some(agents[id])
    } else {
        None
    }
}

/// What happened to one agent between two states.
pub open spec fn change_for(was: Option<AgentConfigModel>, is: Option<AgentConfigModel>) -> Option<
    ChangeModel,
> {
    match (was, is) {
        (None, None) => None,
        (None, Some(b)) => Some(ChangeModel::Added(b)),
        (Some(a), None) => Some(ChangeModel::Removed(a.agent_id)),
        (Some(a), Some(b)) => if a.enabled != b.enabled {
            if b.enabled {
                Some(ChangeModel::Enabled(b))
            } else {
                Some(ChangeModel::Disabled(b))
            }
        } else if !registry::agree(a, b) {
            Some(ChangeModel::Updated(b))
        } else {
            None
        },
    }
}

/// In strictly ascending order of the agents' ids; so at most one for each.
pub open spec fn in_id_order(changes: Seq<ChangeModel>) -> bool {
    forall|i: int, j: int|
        #![trigger changes[i], changes[j]]
        0 <= i < j < changes.len() ==> text::lex_lt(changes[i].agent(), changes[j].agent())
}

/// Whether one of the changes is about the agent.
pub open spec fn mentions(changes: Seq<ChangeModel>, id: Seq<char>) -> bool {
    exists|k: int| 0 <= k < changes.len() && (#[trigger] changes[k]).agent() == id
}

/// The changes are what happened between the two states: of every agent what
/// happened to it, in the order of the ids.
pub open spec fn is_diff(
    old_agents: Map<Seq<char>, AgentConfigModel>,
    new_agents: Map<Seq<char>, AgentConfigModel>,
    changes: Seq<ChangeModel>,
) -> bool {
    &&& in_id_order(changes)
    &&& forall|k: int|
        0 <= k < changes.len() ==> change_for(
            lookup(old_agents, (#[trigger] changes[k]).agent()),
            lookup(new_agents, changes[k].agent()),
        ) == Some(changes[k])
    &&& forall|id: Seq<char>|
        change_for(lookup(old_agents, id), lookup(new_agents, id)) is Some ==> #[trigger] mentions(
            changes,
            id,
        )
}

/// The changes between two listings from given places on.
spec fn merge(s: Seq<AgentConfigModel>, t: Seq<AgentConfigModel>, i: int, j: int) -> Seq<ChangeModel>
    decreases s.len() - i + t.len() - j,
{
    if i < 0 || j < 0 || i > s.len() || j > t.len() || (i == s.len() && j == t.len()) {
        seq![]
    } else if j >= t.len() || (i < s.len() && text::lex_lt(s[i].agent_id, t[j].agent_id)) {
        seq![ChangeModel::Removed(s[i].agent_id)] + merge(s, t, i + 1, j)
    } else if i >= s.len() || text::lex_lt(t[j].agent_id, s[i].agent_id) {
        seq![ChangeModel::Added(t[j])] + merge(s, t, i, j + 1)
    } else {
        match change_for(Some(s[i]), Some(t[j])) {
            Some(c) => seq![c] + merge(s, t, i + 1, j + 1),
            None => merge(s, t, i + 1, j + 1),
        }
    }
}

/// Everything before the given places comes before everything from there on.
spec fn apart(s: Seq<AgentConfigModel>, t: Seq<AgentConfigModel>, i: int, j: int) -> bool {
    &&& 0 <= i <= s.len()
    &&& 0 <= j <= t.len()
    &&& forall|a: int, b: int|
        #![trigger s[a], t[b]]
        0 <= a < i && j <= b < t.len() ==> text::lex_lt(s[a].agent_id, t[b].agent_id)
    &&& forall|a: int, b: int|
        #![trigger s[a], t[b]]
        i <= a < s.len() && 0 <= b < j ==> text::lex_lt(t[b].agent_id, s[a].agent_id)
}

/// Whether an agent is listed from the given place on.
spec fn listed_from(s: Seq<AgentConfigModel>, i: int, id: Seq<char>) -> bool {
    exists|a: int| i <= a < s.len() && (#[trigger] s[a]).agent_id == id
}

spec fn merged(
    s: Seq<AgentConfigModel>,
    t: Seq<AgentConfigModel>,
    i: int,
    j: int,
    d: Seq<ChangeModel>,
) -> bool {
    &&& in_id_order(d)
    &&& forall|k: int|
        0 <= k < d.len() ==> change_for(
            lookup(listing::by_id(s), (#[trigger] d[k]).agent()),
            lookup(listing::by_id(t), d[k].agent()),
        ) == Some(d[k])
    &&& forall|k: int|
        0 <= k < d.len() ==> listed_from(s, i, (#[trigger] d[k]).agent()) || listed_from(
            t,
            j,
            d[k].agent(),
        )
    &&& forall|id: Seq<char>|
        (listed_from(s, i, id) || listed_from(t, j, id)) && change_for(
            lookup(listing::by_id(s), id),
            lookup(listing::by_id(t), id),
        ) is Some ==> #[trigger] mentions(d, id)
}

/// An agent that comes before the rest of one listing and after what went
/// before is not in it.
proof fn lemma_absent(t: Seq<AgentConfigModel>, j: int, id: Seq<char>)
    requires
        0 <= j <= t.len(),
        forall|b: int| 0 <= b < j ==> text::lex_lt((#[trigger] t[b]).agent_id, id),
        forall|b: int| j <= b < t.len() ==> text::lex_lt(id, (#[trigger] t[b]).agent_id),
    ensures
        lookup(listing::by_id(t), id) is None,
{
    text::lemma_lex_irreflexive(id);
    if listing::lists(t, id) {
        let p = listing::place(t, id);
        assert(t[p].agent_id == id);
    }
}

/// Putting the change of the first agent in front of the changes of the rest.
proof fn lemma_merge_step(
    s: Seq<AgentConfigModel>,
    t: Seq<AgentConfigModel>,
    i: int,
    j: int,
    i2: int,
    j2: int,
    id: Seq<char>,
    head: Option<ChangeModel>,
    rest: Seq<ChangeModel>,
)
    requires
        listing::is_listing(s),
        listing::is_listing(t),
        0 <= i <= i2 <= s.len(),
        0 <= j <= j2 <= t.len(),
        merged(s, t, i2, j2, rest),
        head == change_for(lookup(listing::by_id(s), id), lookup(listing::by_id(t), id)),
        head is Some ==> head->0.agent() == id,
        listed_from(s, i, id) || listed_from(t, j, id),
        forall|a: int| i <= a < i2 ==> (#[trigger] s[a]).agent_id == id,
        forall|b: int| j <= b < j2 ==> (#[trigger] t[b]).agent_id == id,
        forall|a: int| i2 <= a < s.len() ==> text::lex_lt(id, (#[trigger] s[a]).agent_id),
        forall|b: int| j2 <= b < t.len() ==> text::lex_lt(id, (#[trigger] t[b]).agent_id),
    ensures
        merged(
            s,
            t,
            i,
            j,
            match head {
                Some(c) => seq![c] + rest,
                None => rest,
            },
        ),
{
    let d = match head {
        Some(c) => seq![c] + rest,
        None => rest,
    };
    let shift: int = if head is Some {
        1
    } else {
        0
    };
    assert forall|k: int| 0 <= k < rest.len() implies text::lex_lt(
        id,
        (#[trigger] rest[k]).agent(),
    ) by {
        assert(listed_from(s, i2, rest[k].agent()) || listed_from(t, j2, rest[k].agent()));
        if listed_from(s, i2, rest[k].agent()) {
            let a = choose|a: int| i2 <= a < s.len() && (#[trigger] s[a]).agent_id == rest[k].agent();
            assert(text::lex_lt(id, s[a].agent_id));
        } else {
            let b = choose|b: int| j2 <= b < t.len() && (#[trigger] t[b]).agent_id == rest[k].agent();
            assert(text::lex_lt(id, t[b].agent_id));
        }
    }
    assert forall|k: int| shift <= k < d.len() implies #[trigger] d[k] == rest[k - shift] by {}
    assert forall|p: int, q: int|
        #![trigger d[p], d[q]]
        0 <= p < q < d.len() implies text::lex_lt(d[p].agent(), d[q].agent()) by {
        if p >= shift {
            assert(d[p] == rest[p - shift] && d[q] == rest[q - shift]);
        } else {
            assert(d[q] == rest[q - shift]);
        }
    }
    assert forall|k: int| 0 <= k < d.len() implies change_for(
        lookup(listing::by_id(s), (#[trigger] d[k]).agent()),
        lookup(listing::by_id(t), d[k].agent()),
    ) == Some(d[k]) by {
        if k >= shift {
            assert(d[k] == rest[k - shift]);
        }
    }
    assert forall|k: int| 0 <= k < d.len() implies listed_from(s, i, (#[trigger] d[k]).agent())
        || listed_from(t, j, d[k].agent()) by {
        if k >= shift {
            assert(d[k] == rest[k - shift]);
            let x = rest[k - shift].agent();
            assert(listed_from(s, i2, x) || listed_from(t, j2, x));
            if listed_from(s, i2, x) {
                let a = choose|a: int| i2 <= a < s.len() && (#[trigger] s[a]).agent_id == x;
                assert(s[a].agent_id == x);
            } else {
                let b = choose|b: int| j2 <= b < t.len() && (#[trigger] t[b]).agent_id == x;
                assert(t[b].agent_id == x);
            }
        }
    }
    assert forall|x: Seq<char>|
        (listed_from(s, i, x) || listed_from(t, j, x)) && change_for(
            lookup(listing::by_id(s), x),
            lookup(listing::by_id(t), x),
        ) is Some implies #[trigger] mentions(d, x) by {
        if x == id {
            assert(d[0].agent() == x);
        } else {
            if listed_from(s, i, x) {
                let a = choose|a: int| i <= a < s.len() && (#[trigger] s[a]).agent_id == x;
                assert(a >= i2);
                assert(listed_from(s, i2, x));
            } else {
                let b = choose|b: int| j <= b < t.len() && (#[trigger] t[b]).agent_id == x;
                assert(b >= j2);
                assert(listed_from(t, j2, x));
            }
            assert(mentions(rest, x));
            let k = choose|k: int| 0 <= k < rest.len() && (#[trigger] rest[k]).agent() == x;
            assert(d[k + shift] == rest[k]);
        }
    }
}

proof fn lemma_merge(s: Seq<AgentConfigModel>, t: Seq<AgentConfigModel>, i: int, j: int)
    requires
        listing::is_listing(s),
        listing::is_listing(t),
        apart(s, t, i, j),
    ensures
        merged(s, t, i, j, merge(s, t, i, j)),
    decreases s.len() - i + t.len() - j,
{
    if i >= s.len() && j >= t.len() {
        assert forall|id: Seq<char>| !listed_from(s, i, id) && !listed_from(t, j, id) by {}
    } else if j >= t.len() || (i < s.len() && text::lex_lt(s[i].agent_id, t[j].agent_id)) {
        let id = s[i].agent_id;
        assert forall|b: int| j <= b < t.len() implies text::lex_lt(
            id,
            (#[trigger] t[b]).agent_id,
        ) by {
            if b > j {
                text::lemma_lex_transitive(id, t[j].agent_id, t[b].agent_id);
            }
        }
        listing::lemma_place(s, i);
        lemma_absent(t, j, id);
        lemma_merge(s, t, i + 1, j);
        lemma_merge_step(
            s,
            t,
            i,
            j,
            i + 1,
            j,
            id,
            Some(ChangeModel::Removed(id)),
            merge(s, t, i + 1, j),
        );
    } else if i >= s.len() || text::lex_lt(t[j].agent_id, s[i].agent_id) {
        let id = t[j].agent_id;
        assert forall|a: int| i <= a < s.len() implies text::lex_lt(
            id,
            (#[trigger] s[a]).agent_id,
        ) by {
            if a > i {
                text::lemma_lex_transitive(id, s[i].agent_id, s[a].agent_id);
            }
        }
        listing::lemma_place(t, j);
        lemma_absent(s, i, id);
        lemma_merge(s, t, i, j + 1);
        lemma_merge_step(
            s,
            t,
            i,
            j,
            i,
            j + 1,
            id,
            Some(ChangeModel::Added(t[j])),
            merge(s, t, i, j + 1),
        );
    } else {
        let id = s[i].agent_id;
        text::lemma_lex_total(s[i].agent_id, t[j].agent_id);
        listing::lemma_place(s, i);
        listing::lemma_place(t, j);
        lemma_merge(s, t, i + 1, j + 1);
        lemma_merge_step(
            s,
            t,
            i,
            j,
            i + 1,
            j + 1,
            id,
            change_for(Some(s[i]), Some(t[j])),
            merge(s, t, i + 1, j + 1),
        );
    }
}

proof fn lemma_merge_is_diff(s: Seq<AgentConfigModel>, t: Seq<AgentConfigModel>)
    requires
        listing::is_listing(s),
        listing::is_listing(t),
    ensures
        is_diff(listing::by_id(s), listing::by_id(t), merge(s, t, 0, 0)),
{
    lemma_merge(s, t, 0, 0);
    let d = merge(s, t, 0, 0);
    assert forall|id: Seq<char>|
        change_for(lookup(listing::by_id(s), id), lookup(listing::by_id(t), id)) is Some
            implies #[trigger] mentions(
        d,
        id,
    ) by {
        if listing::lists(s, id) {
            assert(s[listing::place(s, id)].agent_id == id);
            assert(listed_from(s, 0, id));
        } else {
            assert(t[listing::place(t, id)].agent_id == id);
            assert(listed_from(t, 0, id));
        }
    }
}

/// What happened to one agent that was registered before and still is.
fn change_between(was: &AgentConfig, is: &AgentConfig) -> (r: Option<Change>)
    ensures
        match r {
            Some(c) => change_for(Some(was@), Some(is@)) == Some(c@),
            None => change_for(Some(was@), Some(is@)) is None,
        },
{
    if was.enabled != is.enabled {
        if is.enabled {
            Some(Change::Enabled(is.clone()))
        } else {
            Some(Change::Disabled(is.clone()))
        }
    } else if !was.same(is) {
        Some(Change::Updated(is.clone()))
    } else {
        None
    }
}

fn merge_changes(was: &Vec<AgentConfig>, is: &Vec<AgentConfig>) -> (r: Vec<Change>)
    ensures
        registry::changes_view(r@) == merge(listing::configs_view(was@), listing::configs_view(is@), 0, 0),
{
    let ghost s = listing::configs_view(was@);
    let ghost t = listing::configs_view(is@);
    let mut out: Vec<Change> = Vec::new();
    let mut i: usize = 0;
    let mut j: usize = 0;
    assert(registry::changes_view(out@) + merge(s, t, 0, 0) =~= merge(s, t, 0, 0));
    while i < was.len() || j < is.len()
        invariant
            s == listing::configs_view(was@),
            t == listing::configs_view(is@),
            i <= was@.len(),
            j <= is@.len(),
            registry::changes_view(out@) + merge(s, t, i as int, j as int) == merge(s, t, 0, 0),
        decreases was.len() - i + is.len() - j,
    {
        let ghost before = registry::changes_view(out@);
        let side = if j >= is.len() {
            Relation::Before
        } else if i >= was.len() {
            Relation::After
        } else {
            was[i].agent_id.relation(&is[j].agent_id)
        };
        proof {
            if i < was.len() {
                assert(s[i as int] == was@[i as int]@);
            }
            if j < is.len() {
                assert(t[j as int] == is@[j as int]@);
            }
            if i < was.len() && j < is.len() {
                text::lemma_lex_irreflexive(s[i as int].agent_id);
                if text::lex_lt(s[i as int].agent_id, t[j as int].agent_id) && text::lex_lt(
                    t[j as int].agent_id,
                    s[i as int].agent_id,
                ) {
                    text::lemma_lex_transitive(
                        s[i as int].agent_id,
                        t[j as int].agent_id,
                        s[i as int].agent_id,
                    );
                }
            }
        }
        match side {
            Relation::Before => {
                let c = Change::Removed(was[i].agent_id.clone());
                out.push(c);
                assert(registry::changes_view(out@) =~= before.push(c@));
                assert(before.push(c@) + merge(s, t, i + 1, j as int) =~= before + (seq![c@]
                    + merge(s, t, i + 1, j as int)));
                i = i + 1;
            },
            Relation::After => {
                let c = Change::Added(is[j].clone());
                out.push(c);
                assert(registry::changes_view(out@) =~= before.push(c@));
                assert(before.push(c@) + merge(s, t, i as int, j + 1) =~= before + (seq![c@]
                    + merge(s, t, i as int, j + 1)));
                j = j + 1;
            },
            Relation::Same => {
                match change_between(&was[i], &is[j]) {
                    Some(c) => {
                        out.push(c);
                        assert(registry::changes_view(out@) =~= before.push(c@));
                        assert(before.push(c@) + merge(s, t, i + 1, j + 1) =~= before + (seq![c@]
                            + merge(s, t, i + 1, j + 1)));
                    },
                    None => {},
                }
                i = i + 1;
                j = j + 1;
            },
        }
    }
    assert(registry::changes_view(out@) + merge(s, t, i as int, j as int) =~= registry::changes_view(out@));
    out
}

impl Registry {
    /// Takes over a freshly loaded state and says what changed. Where loading
    /// failed, the registry stays as it was.
    pub fn reload(&mut self, fresh: Result<Registry, AgentdError>) -> (r: Result<
        Vec<Change>,
        AgentdError,
    >)
        requires
            old(self).well_formed(),
            fresh is Ok ==> fresh->Ok_0.well_formed(),
        ensures
            final(self).well_formed(),
            final(self).directory() == old(self).directory(),
            match fresh {
                Ok(f) => (r matches Ok(changes) && is_diff(
                    old(self)@,
                    f@,
                    registry::changes_view(changes@),
                )) && final(self)@ == f@,
                Err(e) => r == Err::<Vec<Change>, AgentdError>(e) && final(self)@ == old(self)@,
            },
    {
        match fresh {
            Err(e) => Err(e),
            Ok(f) => {
                let changes = merge_changes(&self.agents, &f.agents);
                proof {
                    lemma_merge_is_diff(listing::configs_view(self.agents@), listing::configs_view(f.agents@));
                }
                self.agents = f.agents;
                Ok(changes)
            },
        }
    }
}

} // verus!
