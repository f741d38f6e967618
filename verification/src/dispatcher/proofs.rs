//! Every operation keeps the dispatcher coherent.

use vstd::prelude::*;

use crate::dispatcher::model;
use crate::dispatcher::model::{Delivery, DispatcherModel, Report, RunModel, Stage};
use crate::error::AgentdError;
use crate::event::EventEnvelope;
use crate::registry;
use crate::registry::AgentConfigModel;

verus! {

spec fn one(b: bool) -> int {
    if b {
        1
    } else {
        0
    }
}

pub(crate) proof fn lemma_held_bounds(runs: Seq<Option<RunModel>>, g: int)
    ensures
        0 <= model::held(runs, g) <= runs.len(),
    decreases runs.len(),
{
    if runs.len() > 0 {
        lemma_held_bounds(runs.drop_last(), g);
    }
}

proof fn lemma_held_update(runs: Seq<Option<RunModel>>, i: int, x: Option<RunModel>, g: int)
    requires
        0 <= i < runs.len(),
    ensures
        model::held(runs.update(i, x), g) == model::held(runs, g) - one(model::holds(runs[i], g))
            + one(model::holds(x, g)),
    decreases runs.len(),
{
    let t = runs.update(i, x);
    if i == runs.len() - 1 {
        assert(t.drop_last() =~= runs.drop_last());
    } else {
        assert(t.drop_last() =~= runs.drop_last().update(i, x));
        lemma_held_update(runs.drop_last(), i, x, g);
    }
}

proof fn lemma_held_push(runs: Seq<Option<RunModel>>, x: Option<RunModel>, g: int)
    ensures
        model::held(runs.push(x), g) == model::held(runs, g) + one(model::holds(x, g)),
{
    assert(runs.push(x).drop_last() =~= runs);
}

pub(crate) proof fn lemma_held_none(runs: Seq<Option<RunModel>>, g: int)
    requires
        forall|i: int| 0 <= i < runs.len() ==> !model::holds(#[trigger] runs[i], g),
    ensures
        model::held(runs, g) == 0,
    decreases runs.len(),
{
    if runs.len() > 0 {
        let front = runs.drop_last();
        assert forall|i: int| 0 <= i < front.len()
            implies !model::holds(#[trigger] front[i], g) by {
            assert(front[i] == runs[i]);
        }
        lemma_held_none(front, g);
    }
}

pub(crate) proof fn lemma_fresh_gate(m: DispatcherModel, from: int)
    requires
        0 <= from <= m.gates.len(),
    ensures
        from <= model::fresh_gate(m, from) <= m.gates.len(),
        model::fresh_gate(m, from) < m.gates.len() ==> !model::gate_in_use(
            m,
            model::fresh_gate(m, from),
        ),
    decreases m.gates.len() - from,
{
    if from < m.gates.len() && model::gate_in_use(m, from) {
        lemma_fresh_gate(m, from + 1);
    }
}

pub(crate) proof fn lemma_free_number(runs: Seq<Option<RunModel>>, from: int)
    requires
        0 <= from <= runs.len(),
    ensures
        from <= model::free_number(runs, from) <= runs.len(),
        model::free_number(runs, from) < runs.len()
            ==> runs[model::free_number(runs, from)] is None,
    decreases runs.len() - from,
{
    if from < runs.len() && runs[from] is Some {
        lemma_free_number(runs, from + 1);
    }
}

pub(crate) proof fn lemma_next_in_line(m: DispatcherModel, gate: int, from: int)
    requires
        0 <= from <= m.queue.len(),
    ensures
        ({
            let k = model::next_in_line(m, gate, from);
            &&& from <= k <= m.queue.len()
            &&& k < m.queue.len() ==> model::waits(m.runs[m.queue[k]], gate)
            &&& forall|l: int|
                from <= l < k ==> !model::waits(m.runs[#[trigger] m.queue[l]], gate)
        }),
    decreases m.queue.len() - from,
{
    if from < m.queue.len() && !model::waits(m.runs[m.queue[from]], gate) {
        lemma_next_in_line(m, gate, from + 1);
    }
}

/// A new gate is one that nothing else refers to.
pub(crate) proof fn lemma_with_gate(m: DispatcherModel, agent: Seq<char>, slots: int)
    requires
        model::coherent(m),
        slots > 0,
    ensures
        model::coherent(model::with_gate(m, agent, slots)),
        model::with_gate(m, agent, slots).gate_of.dom().contains(agent),
        model::with_gate(m, agent, slots).runs == m.runs,
        model::with_gate(m, agent, slots).queue == m.queue,
        !m.gate_of.dom().contains(agent) ==> model::with_gate(m, agent, slots).gates[
            model::with_gate(m, agent, slots).gate_of[agent]] == slots,
{
    let n = model::with_gate(m, agent, slots);
    if !m.gate_of.dom().contains(agent) {
        let g = model::fresh_gate(m, 0);
        lemma_fresh_gate(m, 0);
        assert(!model::gate_in_use(m, g)) by {
            if g == m.gates.len() && model::gate_in_use(m, g) {
                if exists|a: Seq<char>|
                    #[trigger] m.gate_of.dom().contains(a) && m.gate_of[a] == g {
                } else {
                    let i = choose|i: int|
                        0 <= i < m.runs.len() && model::run_at_gate(#[trigger] m.runs[i], g);
                    assert(m.runs[i] is Some);
                }
            }
        }
        assert forall|i: int| 0 <= i < m.runs.len() implies !model::run_at_gate(
            #[trigger] m.runs[i],
            g,
        ) by {}
        assert forall|a: Seq<char>| #[trigger]
            m.gate_of.dom().contains(a) implies m.gate_of[a] != g by {}
        assert forall|i: int| 0 <= i < m.runs.len()
            implies !model::holds(#[trigger] m.runs[i], g) by {
            assert(!model::run_at_gate(m.runs[i], g));
        }
        lemma_held_none(m.runs, g);
        assert(n.gates[g] == slots);
        assert forall|h: int| 0 <= h < m.gates.len() && h != g implies n.gates[h] == m.gates[h] by {}
        assert(model::gates_ok(n)) by {
            assert forall|a: Seq<char>, b: Seq<char>| #[trigger]
                n.gate_of.dom().contains(a) && #[trigger] n.gate_of.dom().contains(b)
                    && n.gate_of[a] == n.gate_of[b] implies a == b by {
                if a != agent && b != agent {
                    assert(m.gate_of.dom().contains(a) && m.gate_of.dom().contains(b));
                } else if a != agent {
                    assert(m.gate_of.dom().contains(a));
                } else if b != agent {
                    assert(m.gate_of.dom().contains(b));
                }
            }
            assert forall|a: Seq<char>, i: int| #[trigger]
                n.gate_of.dom().contains(a) && 0 <= i < n.runs.len() && model::run_at_gate(
                    #[trigger] n.runs[i],
                    n.gate_of[a],
                ) implies n.runs[i]->0.agent == a by {
                if a != agent {
                    assert(m.gate_of.dom().contains(a));
                }
            }
        }
        assert(model::slots_ok(n)) by {
            assert forall|h: int| #![trigger n.gates[h]] 0 <= h < n.gates.len() implies model::held(
                n.runs,
                h,
            ) <= n.gates[h] && 0 < n.gates[h] by {
                if h != g {
                    assert(h < m.gates.len());
                    assert(m.gates[h] == n.gates[h]);
                }
            }
            assert forall|i: int|
                0 <= i < n.runs.len() && (#[trigger] n.runs[i]) is Some && n.runs[i]->0.stage
                    == Stage::Waiting implies model::held(n.runs, n.runs[i]->0.gate)
                == n.gates[n.runs[i]->0.gate] by {
                assert(!model::run_at_gate(m.runs[i], g));
            }
        }
    }
}

/// A run that joins keeps everything in order.
pub(crate) proof fn lemma_joined(
    m: DispatcherModel,
    d: Delivery,
    envelope: EventEnvelope,
    config: AgentConfigModel,
)
    requires
        model::coherent(m),
        registry::config_fault(config) is None,
    ensures
        model::coherent(model::joined(m, d, envelope, config).0),
{
    let n = model::with_gate(m, d.agent@, config.max_concurrency as int);
    lemma_with_gate(m, d.agent@, config.max_concurrency as int);
    let g = n.gate_of[d.agent@];
    let free = model::held(n.runs, g) < n.gates[g];
    let stage = if free {
        Stage::Looking
    } else {
        Stage::Waiting
    };
    let r = model::run_of(d, envelope, config, g, stage);
    let run = Some(r);
    let i = model::free_number(n.runs, 0);
    lemma_free_number(n.runs, 0);
    let z = model::joined(m, d, envelope, config).0;
    assert(n.gates[g] >= model::held(n.runs, g));
    assert forall|h: int| #![trigger model::held(z.runs, h)] model::held(z.runs, h) == model::held(
        n.runs,
        h,
    ) + one(model::holds(run, h)) by {
        if i < n.runs.len() {
            lemma_held_update(n.runs, i, run, h);
        } else {
            lemma_held_push(n.runs, run, h);
        }
    }
    assert(z.runs[i] == run);
    assert forall|j: int| 0 <= j < z.runs.len() && j != i implies #[trigger] z.runs[j] == n.runs[j]
        && j < n.runs.len() by {}
    assert(model::gates_ok(z)) by {
        assert forall|a: Seq<char>, j: int| #[trigger]
            z.gate_of.dom().contains(a) && 0 <= j < z.runs.len() && model::run_at_gate(
                #[trigger] z.runs[j],
                z.gate_of[a],
            ) implies z.runs[j]->0.agent == a by {
            if j != i {
                assert(z.runs[j] == n.runs[j]);
            }
        }
        assert forall|j: int, k: int|
            0 <= j < z.runs.len() && 0 <= k < z.runs.len() && (#[trigger] z.runs[j]) is Some && (
            #[trigger] z.runs[k]) is Some && z.runs[j]->0.gate == z.runs[k]->0.gate
                implies z.runs[j]->0.agent
            == z.runs[k]->0.agent by {
            assert(n.gate_of.dom().contains(d.agent@));
            if j != i {
                assert(z.runs[j] == n.runs[j]);
                assert(k == i ==> model::run_at_gate(n.runs[j], g));
            }
            if k != i {
                assert(z.runs[k] == n.runs[k]);
                assert(j == i ==> model::run_at_gate(n.runs[k], g));
            }
        }
    }
    assert(model::slots_ok(z)) by {
        assert forall|h: int| #![trigger z.gates[h]] 0 <= h < z.gates.len() implies model::held(
            z.runs,
            h,
        ) <= z.gates[h] && 0 < z.gates[h] by {
            assert(n.gates[h] == z.gates[h]);
        }
        assert forall|j: int|
            0 <= j < z.runs.len() && (#[trigger] z.runs[j]) is Some && z.runs[j]->0.stage
                == Stage::Waiting implies model::held(z.runs, z.runs[j]->0.gate)
            == z.gates[z.runs[j]->0.gate] by {
            if j != i {
                assert(z.runs[j] == n.runs[j]);
                assert(model::held(n.runs, n.runs[j]->0.gate) == n.gates[n.runs[j]->0.gate]);
            }
        }
    }
    assert(model::queue_ok(z)) by {
        assert forall|k: int| 0 <= k < z.queue.len() implies 0 <= #[trigger] z.queue[k]
            < z.runs.len() && z.runs[z.queue[k]] is Some && z.runs[z.queue[k]]->0.stage
            == Stage::Waiting by {
            if k < n.queue.len() {
                assert(z.queue[k] == n.queue[k]);
                assert(n.queue[k] != i);
            }
        }
        assert forall|k: int, l: int| 0 <= k < l < z.queue.len() implies #[trigger] z.queue[k]
            != #[trigger] z.queue[l] by {
            assert(z.queue[k] == n.queue[k]);
            assert(n.queue[k] != i);
        }
        assert forall|j: int|
            0 <= j < z.runs.len() && (#[trigger] z.runs[j]) is Some && z.runs[j]->0.stage
                == Stage::Waiting implies z.queue.contains(j) by {
            if j == i {
                assert(z.queue[n.queue.len() as int] == i);
            } else {
                assert(z.runs[j] == n.runs[j]);
                assert(n.queue.contains(j));
                let k = choose|k: int| 0 <= k < n.queue.len() && n.queue[k] == j;
                assert(z.queue[k] == j);
            }
        }
    }
    assert(model::handlers_ok(z)) by {
        assert forall|j: int| 0 <= j < z.runs.len() && (#[trigger] z.runs[j]) is Some
            implies crate::text::is_absolute(
            z.runs[j]->0.handler,
        ) by {
            if j != i {
                assert(z.runs[j] == n.runs[j]);
            }
        }
    }
}

/// A run that holds a slot and is replaced by one of the same agent, gate and
/// handler that holds it too.
proof fn lemma_replace(m: DispatcherModel, run: int, r: RunModel)
    requires
        model::coherent(m),
        0 <= run < m.runs.len(),
        m.runs[run] is Some,
        m.runs[run]->0.stage != Stage::Waiting,
        r.stage != Stage::Waiting,
        r.agent == m.runs[run]->0.agent,
        r.gate == m.runs[run]->0.gate,
        r.handler == m.runs[run]->0.handler,
    ensures
        ({
            let n = DispatcherModel { runs: m.runs.update(run, Some(r)), ..m };
            &&& model::gates_ok(n)
            &&& model::slots_ok(n)
            &&& model::queue_ok(n)
            &&& model::handlers_ok(n)
        }),
{
    let n = DispatcherModel { runs: m.runs.update(run, Some(r)), ..m };
    assert forall|h: int| #![trigger model::held(n.runs, h)] model::held(n.runs, h) == model::held(
        m.runs,
        h,
    ) by {
        lemma_held_update(m.runs, run, Some(r), h);
    }
    assert forall|j: int| 0 <= j < n.runs.len() && j != run implies #[trigger] n.runs[j]
        == m.runs[j] by {}
    assert(n.runs[run] == Some(r));
    assert(model::gates_ok(n)) by {
        assert forall|a: Seq<char>, j: int| #[trigger]
            n.gate_of.dom().contains(a) && 0 <= j < n.runs.len() && model::run_at_gate(
                #[trigger] n.runs[j],
                n.gate_of[a],
            ) implies n.runs[j]->0.agent == a by {
            assert(model::run_at_gate(m.runs[j], n.gate_of[a]));
        }
        assert forall|j: int, k: int|
            0 <= j < n.runs.len() && 0 <= k < n.runs.len() && (#[trigger] n.runs[j]) is Some && (
            #[trigger] n.runs[k]) is Some && n.runs[j]->0.gate == n.runs[k]->0.gate
                implies n.runs[j]->0.agent
            == n.runs[k]->0.agent by {
            assert(m.runs[j] is Some && m.runs[k] is Some);
        }
    }
    assert(model::slots_ok(n)) by {
        assert forall|j: int|
            0 <= j < n.runs.len() && (#[trigger] n.runs[j]) is Some && n.runs[j]->0.stage
                == Stage::Waiting implies model::held(n.runs, n.runs[j]->0.gate)
            == n.gates[n.runs[j]->0.gate] by {
            assert(m.runs[j] == n.runs[j]);
        }
    }
    assert(model::queue_ok(n)) by {
        assert forall|k: int| 0 <= k < n.queue.len() implies 0 <= #[trigger] n.queue[k]
            < n.runs.len() && n.runs[n.queue[k]] is Some && n.runs[n.queue[k]]->0.stage
            == Stage::Waiting by {
            assert(m.queue[k] != run);
        }
        assert forall|j: int|
            0 <= j < n.runs.len() && (#[trigger] n.runs[j]) is Some && n.runs[j]->0.stage
                == Stage::Waiting implies n.queue.contains(j) by {
            assert(m.runs[j] == n.runs[j]);
        }
    }
    assert(model::handlers_ok(n)) by {
        assert forall|j: int| 0 <= j < n.runs.len() && (#[trigger] n.runs[j]) is Some
            implies crate::text::is_absolute(
            n.runs[j]->0.handler,
        ) by {
            assert(m.runs[j] is Some);
        }
    }
}

/// A run that ends and handles no event hands its slot on.
pub(crate) proof fn lemma_released(m: DispatcherModel, run: int)
    requires
        model::coherent(m),
        0 <= run < m.runs.len(),
        m.runs[run] is Some,
        m.runs[run]->0.stage != Stage::Waiting,
        !model::active(m.runs[run]),
    ensures
        model::coherent(model::released(m, run).0),
        model::released(m, run).1 is Some ==> {
            let w = model::released(m, run).1->0;
            &&& w != run
            &&& 0 <= w < m.runs.len()
            &&& model::waits(m.runs[w], m.runs[run]->0.gate)
        },
{
    let g = m.runs[run]->0.gate;
    let n = DispatcherModel { runs: m.runs.update(run, None), ..m };
    let k = model::next_in_line(n, g, 0);
    lemma_next_in_line(n, g, 0);
    let (z, woken) = model::released(m, run);
    assert forall|l: int| 0 <= l < m.queue.len() implies #[trigger] m.queue[l] != run by {}
    assert forall|h: int| #![trigger model::held(n.runs, h)] model::held(n.runs, h) == model::held(
        m.runs,
        h,
    ) - one(h == g) by {
        lemma_held_update(m.runs, run, None, h);
    }
    assert forall|j: int| 0 <= j < n.runs.len() && j != run implies #[trigger] n.runs[j]
        == m.runs[j] by {}
    if k < n.queue.len() {
        let w = n.queue[k];
        let r = RunModel { stage: Stage::Looking, ..n.runs[w]->0 };
        assert(m.queue[k] == w);
        assert(m.runs[w] is Some && m.runs[w]->0.stage == Stage::Waiting && w != run);
        assert(m.runs[w]->0.gate == g);
        assert forall|h: int| #![trigger model::held(z.runs, h)] model::held(z.runs, h)
            == model::held(m.runs, h) by {
            lemma_held_update(n.runs, w, Some(r), h);
            assert(model::held(n.runs, h) == model::held(m.runs, h) - one(h == g));
        }
        assert forall|j: int| 0 <= j < z.runs.len() && j != run && j != w
            implies #[trigger] z.runs[j]
            == m.runs[j] by {}
        assert(z.runs[run] is None);
        assert(z.runs[w] == Some(r));
        assert(model::gates_ok(z)) by {
            assert forall|a: Seq<char>, j: int| #[trigger]
                z.gate_of.dom().contains(a) && 0 <= j < z.runs.len() && model::run_at_gate(
                    #[trigger] z.runs[j],
                    z.gate_of[a],
                ) implies z.runs[j]->0.agent == a by {
                assert(model::run_at_gate(m.runs[j], z.gate_of[a]));
            }
            assert forall|j: int, l: int|
                0 <= j < z.runs.len() && 0 <= l < z.runs.len() && (#[trigger] z.runs[j]) is Some && (
                #[trigger] z.runs[l]) is Some && z.runs[j]->0.gate == z.runs[l]->0.gate
                    implies z.runs[j]->0.agent
                == z.runs[l]->0.agent by {
                assert(m.runs[j] is Some && m.runs[l] is Some);
            }
            assert forall|j: int| 0 <= j < z.runs.len() && (#[trigger] z.runs[j]) is Some implies 0
                <= z.runs[j]->0.gate < z.gates.len() by {
                assert(m.runs[j] is Some);
            }
        }
        assert(model::slots_ok(z)) by {
            assert forall|j: int|
                0 <= j < z.runs.len() && (#[trigger] z.runs[j]) is Some && z.runs[j]->0.stage
                    == Stage::Waiting implies model::held(z.runs, z.runs[j]->0.gate)
                == z.gates[z.runs[j]->0.gate] by {
                assert(m.runs[j] == z.runs[j]);
            }
        }
        assert(model::queue_ok(z)) by {
            assert forall|l: int| 0 <= l < z.queue.len() implies 0 <= #[trigger] z.queue[l]
                < z.runs.len() && z.runs[z.queue[l]] is Some && z.runs[z.queue[l]]->0.stage
                == Stage::Waiting by {
                let p = if l < k {
                    l
                } else {
                    l + 1
                };
                assert(z.queue[l] == m.queue[p]);
                assert(m.queue[p] != m.queue[k]);
            }
            assert forall|a: int, b: int| 0 <= a < b < z.queue.len() implies #[trigger] z.queue[a]
                != #[trigger] z.queue[b] by {
                let p = if a < k {
                    a
                } else {
                    a + 1
                };
                let q = if b < k {
                    b
                } else {
                    b + 1
                };
                assert(z.queue[a] == m.queue[p] && z.queue[b] == m.queue[q]);
            }
            assert forall|j: int|
                0 <= j < z.runs.len() && (#[trigger] z.runs[j]) is Some && z.runs[j]->0.stage
                    == Stage::Waiting implies z.queue.contains(j) by {
                assert(m.runs[j] == z.runs[j]);
                let p = choose|p: int| 0 <= p < m.queue.len() && m.queue[p] == j;
                assert(m.queue[p] == j);
                let q = if p < k {
                    p
                } else {
                    p - 1
                };
                assert(p != k);
                assert(z.queue[q] == j);
            }
        }
        assert(model::handlers_ok(z)) by {
            assert forall|j: int| 0 <= j < z.runs.len() && (#[trigger] z.runs[j]) is Some
                implies crate::text::is_absolute(
                z.runs[j]->0.handler,
            ) by {
                assert(m.runs[j] is Some);
            }
        }
    } else {
        assert forall|j: int| 0 <= j < m.runs.len() && (#[trigger] m.runs[j]) is Some && m.runs[j]->0.stage
            == Stage::Waiting implies m.runs[j]->0.gate != g by {
            let p = choose|p: int| 0 <= p < m.queue.len() && m.queue[p] == j;
            assert(m.queue.contains(j));
            assert(n.queue[p] == j);
            assert(!model::waits(n.runs[n.queue[p]], g));
        }
        assert(model::gates_ok(z)) by {
            assert forall|a: Seq<char>, j: int| #[trigger]
                z.gate_of.dom().contains(a) && 0 <= j < z.runs.len() && model::run_at_gate(
                    #[trigger] z.runs[j],
                    z.gate_of[a],
                ) implies z.runs[j]->0.agent == a by {
                assert(model::run_at_gate(m.runs[j], z.gate_of[a]));
            }
            assert forall|j: int, l: int|
                0 <= j < z.runs.len() && 0 <= l < z.runs.len() && (#[trigger] z.runs[j]) is Some && (
                #[trigger] z.runs[l]) is Some && z.runs[j]->0.gate == z.runs[l]->0.gate
                    implies z.runs[j]->0.agent
                == z.runs[l]->0.agent by {
                assert(m.runs[j] is Some && m.runs[l] is Some);
            }
            assert forall|j: int| 0 <= j < z.runs.len() && (#[trigger] z.runs[j]) is Some implies 0
                <= z.runs[j]->0.gate < z.gates.len() by {
                assert(m.runs[j] is Some);
            }
        }
        assert(model::slots_ok(z)) by {
            assert forall|h: int| #![trigger z.gates[h]] 0 <= h < z.gates.len() implies model::held(
                z.runs,
                h,
            ) <= z.gates[h] && 0 < z.gates[h] by {
                assert(m.gates[h] == z.gates[h]);
            }
            assert forall|j: int|
                0 <= j < z.runs.len() && (#[trigger] z.runs[j]) is Some && z.runs[j]->0.stage
                    == Stage::Waiting implies model::held(z.runs, z.runs[j]->0.gate)
                == z.gates[z.runs[j]->0.gate] by {
                assert(m.runs[j] == z.runs[j]);
            }
        }
        assert(model::queue_ok(z)) by {
            assert forall|l: int| 0 <= l < z.queue.len() implies 0 <= #[trigger] z.queue[l]
                < z.runs.len() && z.runs[z.queue[l]] is Some && z.runs[z.queue[l]]->0.stage
                == Stage::Waiting by {
                assert(m.queue[l] != run);
            }
            assert forall|j: int|
                0 <= j < z.runs.len() && (#[trigger] z.runs[j]) is Some && z.runs[j]->0.stage
                    == Stage::Waiting implies z.queue.contains(j) by {
                assert(m.runs[j] == z.runs[j]);
            }
        }
        assert(model::handlers_ok(z)) by {
            assert forall|j: int| 0 <= j < z.runs.len() && (#[trigger] z.runs[j]) is Some
                implies crate::text::is_absolute(
                z.runs[j]->0.handler,
            ) by {
                assert(m.runs[j] is Some);
            }
        }
    }
}

/// A run goes from one stage to another.
proof fn lemma_at_stage(m: DispatcherModel, run: int, stage: Stage)
    requires
        model::coherent(m),
        0 <= run < m.runs.len(),
        m.runs[run] is Some,
        m.runs[run]->0.stage != Stage::Waiting,
        stage != Stage::Waiting,
    ensures
        model::coherent(model::at_stage(m, run, stage)),
{
    lemma_replace(m, run, RunModel { stage, ..m.runs[run]->0 });
}

/// A run starts to handle its event.
proof fn lemma_started(m: DispatcherModel, run: int)
    requires
        model::coherent(m),
        0 <= run < m.runs.len(),
        m.runs[run] is Some,
        m.runs[run]->0.stage == Stage::Looking,
    ensures
        model::coherent(model::started(m, run)),
{
    lemma_replace(
        m,
        run,
        RunModel { stage: Stage::Spawning, raw: Seq::empty(), ..m.runs[run]->0 },
    );
}

/// Every report keeps the dispatcher coherent.
pub(crate) proof fn lemma_advance(m: DispatcherModel, run: int, report: Report)
    requires
        model::coherent(m),
        model::advance_of(m, run, report) is Some,
    ensures
        model::coherent((model::advance_of(m, run, report)->0).0),
{
    let r = m.runs[run]->0;
    match report {
        Report::Found(found) => {
            if found == Ok::<bool, AgentdError>(true) {
                lemma_at_stage(m, run, Stage::Acking);
            } else if model::is_in_flight(m, r.agent, r.event_id) {
                lemma_released(m, run);
            } else {
                lemma_started(m, run);
            }
        },
        Report::Spawned(outcome) => match outcome {
            Ok(_) => {
                lemma_at_stage(m, run, Stage::Running);
            },
            Err(_) => {
                lemma_at_stage(m, run, Stage::Terming);
            },
        },
        Report::Exited { .. } => {
            lemma_at_stage(m, run, Stage::Marking);
        },
        Report::Marked(_) => {
            lemma_at_stage(m, run, Stage::Acking);
        },
        Report::Acked(_) => {
            lemma_released(m, run);
        },
        Report::Termed => {
            lemma_released(m, run);
        },
    }
}

/// Taking gates away keeps the dispatcher coherent.
pub(crate) proof fn lemma_without_gates(m: DispatcherModel, agents: Set<Seq<char>>)
    requires
        model::coherent(m),
    ensures
        model::coherent(model::without_gates(m, agents)),
{
    let n = model::without_gates(m, agents);
    assert forall|a: Seq<char>| #[trigger] n.gate_of.dom().contains(a)
        implies m.gate_of.dom().contains(a) && n.gate_of[a] == m.gate_of[a] by {}
}

} // verus!
