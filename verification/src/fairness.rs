//! Round-robin fairness: schedules in a row take the processes in turn.
use vstd::prelude::*;
use crate::scheduler::RoundRobinScheduler;

verus! {

/// After `j + 1` schedules in a row, each picking the position after the
/// last, the position picked last is `j + 1` past the starting one.
proof fn lemma_robin_after<M>(states: Seq<RoundRobinScheduler<M>>, j: int)
    requires
        states.len() == states[0].metas().len() + 1,
        states[0].metas().len() > 0,
        forall|k: int| 1 <= k < states.len() ==> {
            &&& #[trigger] states[k].robin() == states[k - 1].next_index()
            &&& states[k].metas().len() == states[k - 1].metas().len()
        },
        0 <= j < states.len() - 1,
    ensures
        states[j + 1].robin() == (states[0].robin() + j + 1) % (states[0].metas().len() as int),
        states[j + 1].metas().len() == states[0].metas().len(),
    decreases j,
{
    let n = states[0].metas().len() as int;
    if j > 0 {
        lemma_robin_after(states, j - 1);
        assert(states[j + 1].robin() == states[(j + 1) - 1].next_index());
        vstd::arithmetic::div_mod::lemma_add_mod_noop(states[0].robin() + j, 1, n);
        if n > 1 {
            vstd::arithmetic::div_mod::lemma_small_mod(1, n as nat);
        } else {
            vstd::arithmetic::div_mod::lemma_mod_bound(states[j].robin() + 1, n);
            vstd::arithmetic::div_mod::lemma_mod_bound(states[0].robin() + j + 1, n);
        }
    } else {
        assert(states[1].robin() == states[1 - 1].next_index());
    }
}

/// Some scheduler after the first in `states` last picked position `i`.
pub open spec fn picked_in<M>(states: Seq<RoundRobinScheduler<M>>, i: int) -> bool {
    exists|j: int| 1 <= j < states.len() && #[trigger] states[j].robin() == i
}

/// Round robin: in as many schedules in a row as there are processes, each
/// picking the position after the last (and keeping the processes), every
/// process is picked. `states[j + 1]` is the scheduler after the `j`-th of
/// them.
pub proof fn lemma_every_process_gets_a_turn<M>(states: Seq<RoundRobinScheduler<M>>)
    requires
        states.len() == states[0].metas().len() + 1,
        states[0].metas().len() > 0,
        forall|k: int| 1 <= k < states.len() ==> {
            &&& #[trigger] states[k].robin() == states[k - 1].next_index()
            &&& states[k].metas().len() == states[k - 1].metas().len()
        },
    ensures
        forall|i: int| 0 <= i < states[0].metas().len() ==> #[trigger] picked_in(states, i),
{
    let n = states[0].metas().len() as int;
    let r0 = states[0].robin() as int;
    assert forall|i: int| 0 <= i < n implies #[trigger] picked_in(states, i) by {
        let d = (i - r0 - 1) % n;
        vstd::arithmetic::div_mod::lemma_mod_bound(i - r0 - 1, n);
        lemma_robin_after(states, d);
        vstd::arithmetic::div_mod::lemma_add_mod_noop_right(r0 + 1, i - r0 - 1, n);
        vstd::arithmetic::div_mod::lemma_small_mod(i as nat, n as nat);
        assert(r0 + d + 1 == (r0 + 1) + d);
        assert(states[d + 1].robin() == i);
    }
}

} // verus!
