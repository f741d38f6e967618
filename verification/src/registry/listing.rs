//! Registrations in the order of their ids, and the map that they stand for.

use vstd::prelude::*;

use crate::registry;
use crate::registry::{AgentConfig, AgentConfigModel};
use crate::text;

verus! {

/// The models of a list of registrations.
pub open spec fn configs_view(agents: Seq<AgentConfig>) -> Seq<AgentConfigModel> {
    agents.map_values(|c: AgentConfig| c@)
}

/// In strictly ascending order of the agent ids.
pub open spec fn is_listing(s: Seq<AgentConfigModel>) -> bool {
    forall|i: int, j: int|
        #![trigger s[i], s[j]]
        0 <= i < j < s.len() ==> text::lex_lt(s[i].agent_id, s[j].agent_id)
}

/// No registration is structurally wrong.
pub open spec fn all_valid(s: Seq<AgentConfigModel>) -> bool {
    forall|i: int| 0 <= i < s.len() ==> registry::config_fault(#[trigger] s[i]) is None
}

/// Whether an agent is listed.
pub open spec fn lists(s: Seq<AgentConfigModel>, id: Seq<char>) -> bool {
    exists|i: int| 0 <= i < s.len() && (#[trigger] s[i]).agent_id == id
}

/// Where an agent is listed.
pub open spec fn place(s: Seq<AgentConfigModel>, id: Seq<char>) -> int {
    choose|i: int| 0 <= i < s.len() && (#[trigger] s[i]).agent_id == id
}

/// The registrations of a listing by their ids.
pub open spec fn by_id(s: Seq<AgentConfigModel>) -> Map<Seq<char>, AgentConfigModel> {
    Map::new(|id: Seq<char>| lists(s, id), |id: Seq<char>| s[place(s, id)])
}

pub(crate) proof fn lemma_place(s: Seq<AgentConfigModel>, i: int)
    requires
        is_listing(s),
        0 <= i < s.len(),
    ensures
        lists(s, s[i].agent_id),
        place(s, s[i].agent_id) == i,
        by_id(s).dom().contains(s[i].agent_id),
        by_id(s)[s[i].agent_id] == s[i],
{
    let id = s[i].agent_id;
    let k = place(s, id);
    assert(0 <= k < s.len() && s[k].agent_id == id);
    text::lemma_lex_irreflexive(id);
    if k < i {
        assert(text::lex_lt(s[k].agent_id, s[i].agent_id));
    } else if i < k {
        assert(text::lex_lt(s[i].agent_id, s[k].agent_id));
    }
}

pub(crate) proof fn lemma_insert(s: Seq<AgentConfigModel>, k: int, c: AgentConfigModel)
    requires
        is_listing(s),
        0 <= k <= s.len(),
        forall|i: int| 0 <= i < k ==> text::lex_lt((#[trigger] s[i]).agent_id, c.agent_id),
        forall|i: int| k <= i < s.len() ==> text::lex_lt(c.agent_id, (#[trigger] s[i]).agent_id),
    ensures
        is_listing(s.insert(k, c)),
        !by_id(s).dom().contains(c.agent_id),
        by_id(s.insert(k, c)) == by_id(s).insert(c.agent_id, c),
{
    let t = s.insert(k, c);
    assert forall|i: int, j: int| #![trigger t[i], t[j]] 0 <= i < j < t.len() implies text::lex_lt(
        t[i].agent_id,
        t[j].agent_id,
    ) by {
        let a = if i < k {
            i
        } else {
            i - 1
        };
        let b = if j < k {
            j
        } else {
            j - 1
        };
        if i != k {
            assert(t[i] == s[a]);
        }
        if j != k {
            assert(t[j] == s[b]);
        }
    }
    text::lemma_lex_irreflexive(c.agent_id);
    if lists(s, c.agent_id) {
        let p = place(s, c.agent_id);
        assert(s[p].agent_id == c.agent_id);
    }
    assert(t[k] == c);
    assert forall|id: Seq<char>| lists(t, id) == (id == c.agent_id || lists(s, id)) by {
        if lists(t, id) {
            let p = place(t, id);
            if p < k {
                assert(s[p] == t[p]);
            } else if p > k {
                assert(s[p - 1] == t[p]);
            }
        }
        if lists(s, id) {
            let p = place(s, id);
            if p < k {
                assert(t[p] == s[p]);
            } else {
                assert(t[p + 1] == s[p]);
            }
        }
        if id == c.agent_id {
            assert(t[k].agent_id == id);
        }
    }
    assert forall|id: Seq<char>| lists(t, id) implies #[trigger] by_id(t)[id] == by_id(s).insert(
        c.agent_id,
        c,
    )[id] by {
        let p = place(t, id);
        assert(t[p].agent_id == id);
        lemma_place(t, p);
        if p < k {
            lemma_place(s, p);
            assert(s[p] == t[p]);
        } else if p > k {
            lemma_place(s, p - 1);
            assert(s[p - 1] == t[p]);
        }
    }
    assert(by_id(t) =~= by_id(s).insert(c.agent_id, c));
}

pub(crate) proof fn lemma_update(s: Seq<AgentConfigModel>, k: int, c: AgentConfigModel)
    requires
        is_listing(s),
        0 <= k < s.len(),
        s[k].agent_id == c.agent_id,
    ensures
        is_listing(s.update(k, c)),
        by_id(s.update(k, c)) == by_id(s).insert(c.agent_id, c),
{
    let t = s.update(k, c);
    assert forall|i: int| 0 <= i < t.len() implies (#[trigger] t[i]).agent_id == s[i].agent_id by {}
    assert forall|i: int, j: int| #![trigger t[i], t[j]] 0 <= i < j < t.len() implies text::lex_lt(
        t[i].agent_id,
        t[j].agent_id,
    ) by {
        assert(text::lex_lt(s[i].agent_id, s[j].agent_id));
    }
    assert forall|id: Seq<char>| lists(t, id) == lists(s, id) by {
        if lists(t, id) {
            assert(s[place(t, id)].agent_id == id);
        }
        if lists(s, id) {
            assert(t[place(s, id)].agent_id == id);
        }
    }
    lemma_place(s, k);
    assert forall|id: Seq<char>| lists(t, id) implies #[trigger] by_id(t)[id] == by_id(s).insert(
        c.agent_id,
        c,
    )[id] by {
        let p = place(t, id);
        assert(t[p].agent_id == id);
        lemma_place(t, p);
        lemma_place(s, p);
        lemma_place(t, k);
    }
    assert(by_id(t) =~= by_id(s).insert(c.agent_id, c));
}

pub(crate) proof fn lemma_remove(s: Seq<AgentConfigModel>, k: int)
    requires
        is_listing(s),
        0 <= k < s.len(),
    ensures
        is_listing(s.remove(k)),
        by_id(s.remove(k)) == by_id(s).remove(s[k].agent_id),
{
    let t = s.remove(k);
    let gone = s[k].agent_id;
    assert forall|i: int| 0 <= i < t.len() implies (#[trigger] t[i]) == s[if i < k {
        i
    } else {
        i + 1
    }] by {}
    assert forall|i: int, j: int| #![trigger t[i], t[j]] 0 <= i < j < t.len() implies text::lex_lt(
        t[i].agent_id,
        t[j].agent_id,
    ) by {
        let a = if i < k {
            i
        } else {
            i + 1
        };
        let b = if j < k {
            j
        } else {
            j + 1
        };
        assert(text::lex_lt(s[a].agent_id, s[b].agent_id));
    }
    lemma_place(s, k);
    assert forall|id: Seq<char>| lists(t, id) == (id != gone && lists(s, id)) by {
        if lists(t, id) {
            let p = place(t, id);
            let q = if p < k {
                p
            } else {
                p + 1
            };
            assert(s[q] == t[p]);
            lemma_place(s, q);
        }
        if id != gone && lists(s, id) {
            let p = place(s, id);
            assert(s[p].agent_id == id);
            if p < k {
                assert(t[p] == s[p]);
            } else {
                assert(t[p - 1] == s[p]);
            }
        }
    }
    assert forall|id: Seq<char>| lists(t, id) implies #[trigger] by_id(t)[id] == by_id(s)[id] by {
        let p = place(t, id);
        assert(t[p].agent_id == id);
        lemma_place(t, p);
        let q = if p < k {
            p
        } else {
            p + 1
        };
        assert(s[q] == t[p]);
        lemma_place(s, q);
    }
    assert(by_id(t) =~= by_id(s).remove(gone));
}

/// A listing is as long as there are agents.
pub proof fn lemma_listing_len(s: Seq<AgentConfigModel>)
    requires
        is_listing(s),
    ensures
        by_id(s).dom().finite(),
        by_id(s).dom().len() == s.len(),
    decreases s.len(),
{
    if s.len() == 0 {
        assert(by_id(s).dom() =~= Set::empty());
    } else {
        let n = s.len() - 1;
        let front = s.remove(n);
        lemma_place(s, n);
        lemma_remove(s, n);
        lemma_listing_len(front);
        assert(by_id(front).dom() =~= by_id(s).dom().remove(s[n].agent_id));
        assert(by_id(s).dom() =~= by_id(front).dom().insert(s[n].agent_id));
    }
}

/// There is one listing of given agents: agents in the order of their ids come
/// in no other way.
pub proof fn lemma_listing_unique(s: Seq<AgentConfigModel>, t: Seq<AgentConfigModel>)
    requires
        is_listing(s),
        is_listing(t),
        by_id(s) == by_id(t),
    ensures
        s == t,
    decreases s.len(),
{
    lemma_listing_len(s);
    lemma_listing_len(t);
    if s.len() == 0 {
        assert(s =~= t);
    } else {
        let n = s.len() - 1;
        lemma_place(s, n);
        lemma_place(t, n);
        let p = place(t, s[n].agent_id);
        let q = place(s, t[n].agent_id);
        assert(lists(t, s[n].agent_id) && t[p].agent_id == s[n].agent_id) by {
            assert(by_id(t).dom().contains(s[n].agent_id));
        }
        assert(lists(s, t[n].agent_id) && s[q].agent_id == t[n].agent_id) by {
            assert(by_id(s).dom().contains(t[n].agent_id));
        }
        if p < n && q < n {
            assert(text::lex_lt(t[p].agent_id, t[n].agent_id));
            assert(text::lex_lt(s[q].agent_id, s[n].agent_id));
            text::lemma_lex_transitive(t[n].agent_id, s[n].agent_id, t[n].agent_id);
            text::lemma_lex_irreflexive(t[n].agent_id);
        }
        assert(s[n].agent_id == t[n].agent_id);
        assert(s[n] == t[n]);
        lemma_remove(s, n);
        lemma_remove(t, n);
        lemma_listing_unique(s.remove(n), t.remove(n));
        assert(s =~= s.remove(n).push(s[n]));
        assert(t =~= t.remove(n).push(t[n]));
    }
}

} // verus!
