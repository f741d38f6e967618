//! A map from agent ids.

use vstd::prelude::*;

use crate::agent_id::AgentId;

verus! {

/// Values by agent id; a small one, searched from end to end.
#[derive(Debug)]
pub struct AgentMap<T> {
    keys: Vec<AgentId>,
    values: Vec<T>,
}

spec fn has_key(keys: Seq<AgentId>, id: Seq<char>) -> bool {
    exists|i: int| 0 <= i < keys.len() && (#[trigger] keys[i])@ == id
}

spec fn key_place(keys: Seq<AgentId>, id: Seq<char>) -> int {
    choose|i: int| 0 <= i < keys.len() && (#[trigger] keys[i])@ == id
}

spec fn distinct(keys: Seq<AgentId>) -> bool {
    forall|i: int, j: int|
        #![trigger keys[i], keys[j]]
        0 <= i < j < keys.len() ==> keys[i]@ != keys[j]@
}

spec fn entries<T>(keys: Seq<AgentId>, values: Seq<T>) -> Map<Seq<char>, T> {
    Map::new(|id: Seq<char>| has_key(keys, id), |id: Seq<char>| values[key_place(keys, id)])
}

impl<T> View for AgentMap<T> {
    type V = Map<Seq<char>, T>;

    closed spec fn view(&self) -> Map<Seq<char>, T> {
        entries(self.keys@, self.values@)
    }
}

proof fn lemma_key_place(keys: Seq<AgentId>, i: int)
    requires
        distinct(keys),
        0 <= i < keys.len(),
    ensures
        has_key(keys, keys[i]@),
        key_place(keys, keys[i]@) == i,
{
    let k = key_place(keys, keys[i]@);
    assert(keys[k]@ == keys[i]@);
}

/// Whether some agent has this value.
pub open spec fn is_value<T>(m: Map<Seq<char>, T>, v: T) -> bool {
    exists|id: Seq<char>| #[trigger] m.dom().contains(id) && m[id] == v
}

impl<T> AgentMap<T> {
    /// No id occurs twice, and every id has its value.
    pub closed spec fn well_formed(self) -> bool {
        &&& self.keys@.len() == self.values@.len()
        &&& distinct(self.keys@)
    }

    /// An empty map.
    pub fn new() -> (m: AgentMap<T>)
        ensures
            m.well_formed(),
            m@ == Map::<Seq<char>, T>::empty(),
    {
        let m = AgentMap { keys: Vec::new(), values: Vec::new() };
        assert(m@ =~= Map::<Seq<char>, T>::empty());
        m
    }

    /// Where an agent's value stands.
    fn find(&self, id: &AgentId) -> (r: Option<usize>)
        requires
            self.well_formed(),
        ensures
            match r {
                Some(k) => {
                    &&& k < self.keys@.len()
                    &&& self.keys@[k as int]@ == id@
                    &&& self@.dom().contains(id@)
                    &&& self@[id@] == self.values@[k as int]
                },
                None => !self@.dom().contains(id@),
            },
    {
        for i in 0..self.keys.len()
            invariant
                self.well_formed(),
                forall|j: int| 0 <= j < i ==> (#[trigger] self.keys@[j])@ != id@,
        {
            if self.keys[i].same(id) {
                proof {
                    lemma_key_place(self.keys@, i as int);
                }
                return Some(i);
            }
        }
        None
    }

    /// An agent's value.
    pub fn get(&self, id: &AgentId) -> (r: Option<&T>)
        requires
            self.well_formed(),
        ensures
            match r {
                Some(v) => self@.dom().contains(id@) && *v == self@[id@],
                None => !self@.dom().contains(id@),
            },
    {
        match self.find(id) {
            Some(k) => Some(&self.values[k]),
            None => None,
        }
    }

    /// All values, in no particular order.
    pub fn values(&self) -> (r: &Vec<T>)
        requires
            self.well_formed(),
        ensures
            forall|id: Seq<char>|
                #[trigger] self@.dom().contains(id) ==> exists|i: int|
                    0 <= i < r@.len() && #[trigger] r@[i] == self@[id],
            forall|i: int| 0 <= i < r@.len() ==> is_value(self@, #[trigger] r@[i]),
    {
        proof {
            assert forall|id: Seq<char>| #[trigger] self@.dom().contains(id) implies exists|i: int|
                0 <= i < self.values@.len() && #[trigger] self.values@[i] == self@[id] by {
                let p = key_place(self.keys@, id);
                assert(self.keys@[p]@ == id);
                assert(self.values@[p] == self@[id]);
            }
            assert forall|i: int| 0 <= i < self.values@.len() implies is_value(
                self@,
                #[trigger] self.values@[i],
            ) by {
                lemma_key_place(self.keys@, i);
                let id = self.keys@[i]@;
                assert(self@.dom().contains(id) && self@[id] == self.values@[i]);
            }
        }
        &self.values
    }

    /// Gives an agent a value, in place of the one it had if it had one.
    pub fn put(&mut self, id: &AgentId, value: T)
        requires
            old(self).well_formed(),
        ensures
            final(self).well_formed(),
            final(self)@ == old(self)@.insert(id@, value),
    {
        let ghost keys = self.keys@;
        let ghost values = self.values@;
        match self.find(id) {
            Some(k) => {
                self.values.set(k, value);
                proof {
                    lemma_key_place(keys, k as int);
                    assert forall|x: Seq<char>| has_key(keys, x) implies #[trigger] entries(
                        keys,
                        self.values@,
                    )[x] == entries(keys, values).insert(id@, value)[x] by {
                        let p = key_place(keys, x);
                        assert(keys[p]@ == x);
                        lemma_key_place(keys, p);
                    }
                    assert(self@ =~= entries(keys, values).insert(id@, value));
                }
            },
            None => {
                self.keys.push(id.clone());
                self.values.push(value);
                proof {
                    let n = keys.len() as int;
                    assert(self.keys@[n]@ == id@);
                    assert forall|i: int, j: int|
                        #![trigger self.keys@[i], self.keys@[j]]
                        0 <= i < j < self.keys@.len() implies self.keys@[i]@ != self.keys@[j]@ by {
                        if j == n {
                            assert(keys[i]@ == self.keys@[i]@);
                            assert(has_key(keys, keys[i]@));
                        } else {
                            assert(keys[i] == self.keys@[i] && keys[j] == self.keys@[j]);
                        }
                    }
                    assert forall|x: Seq<char>| has_key(self.keys@, x) == (x == id@ || has_key(
                        keys,
                        x,
                    )) by {
                        if has_key(self.keys@, x) && x != id@ {
                            let p = key_place(self.keys@, x);
                            assert(keys[p]@ == x);
                        }
                        if has_key(keys, x) {
                            assert(self.keys@[key_place(keys, x)]@ == x);
                        }
                    }
                    assert forall|x: Seq<char>| has_key(self.keys@, x) implies #[trigger] entries(
                        self.keys@,
                        self.values@,
                    )[x] == entries(keys, values).insert(id@, value)[x] by {
                        let p = key_place(self.keys@, x);
                        assert(self.keys@[p]@ == x);
                        lemma_key_place(self.keys@, p);
                        if x == id@ {
                            lemma_key_place(self.keys@, n);
                        } else {
                            assert(keys[p]@ == x);
                            lemma_key_place(keys, p);
                        }
                    }
                    assert(self@ =~= entries(keys, values).insert(id@, value));
                }
            },
        }
    }

    /// Takes an agent's value out, if it has one.
    pub fn remove(&mut self, id: &AgentId) -> (r: Option<T>)
        requires
            old(self).well_formed(),
        ensures
            final(self).well_formed(),
            final(self)@ == old(self)@.remove(id@),
            r == if old(self)@.dom().contains(id@) {
                Some(old(self)@[id@])
            } else {
                None
            },
    {
        let ghost keys = self.keys@;
        let ghost values = self.values@;
        match self.find(id) {
            Some(k) => {
                self.keys.remove(k);
                let value = self.values.remove(k);
                proof {
                    let t = self.keys@;
                    assert forall|i: int| 0 <= i < t.len() implies (#[trigger] t[i]) == keys[if i
                        < k {
                        i
                    } else {
                        i + 1
                    }] by {}
                    assert forall|i: int, j: int|
                        #![trigger t[i], t[j]]
                        0 <= i < j < t.len() implies t[i]@ != t[j]@ by {}
                    lemma_key_place(keys, k as int);
                    assert forall|x: Seq<char>| has_key(t, x) == (x != id@ && has_key(keys, x)) by {
                        if has_key(t, x) {
                            let p = key_place(t, x);
                            let q = if p < k {
                                p
                            } else {
                                p + 1
                            };
                            assert(keys[q] == t[p]);
                            lemma_key_place(keys, q);
                        }
                        if x != id@ && has_key(keys, x) {
                            let p = key_place(keys, x);
                            assert(keys[p]@ == x);
                            if p < k {
                                assert(t[p] == keys[p]);
                            } else {
                                assert(t[p - 1] == keys[p]);
                            }
                        }
                    }
                    assert forall|x: Seq<char>| has_key(t, x) implies #[trigger] entries(
                        t,
                        self.values@,
                    )[x] == entries(keys, values)[x] by {
                        let p = key_place(t, x);
                        assert(t[p]@ == x);
                        lemma_key_place(t, p);
                        let q = if p < k {
                            p
                        } else {
                            p + 1
                        };
                        assert(keys[q] == t[p]);
                        lemma_key_place(keys, q);
                    }
                    assert(self@ =~= entries(keys, values).remove(id@));
                }
                Some(value)
            },
            None => {
                assert(self@ =~= entries(keys, values).remove(id@));
                None
            },
        }
    }
}

} // verus!
