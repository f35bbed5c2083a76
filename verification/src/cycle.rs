//! Single-cycle permutations: what they are, and how one is built from a
//! visiting order.

use vstd::prelude::*;
use vstd::arithmetic::div_mod::{lemma_add_mod_noop, lemma_fundamental_div_mod_converse, lemma_small_mod};
use vstd::set_lib::{lemma_int_range, lemma_subset_equality, set_int_range};

verus! {

/// `s` lists indices below its own length, none of them twice.
pub open spec fn is_permutation(s: Seq<usize>) -> bool {
    &&& forall|k: int| 0 <= k < s.len() ==> (#[trigger] s[k]) < s.len()
    &&& forall|j: int, k: int| 0 <= j < k < s.len() ==> s[j] != s[k]
}

/// Every slot of `map` holds an index into `map`.
pub open spec fn in_range(map: Seq<usize>) -> bool {
    forall|i: int| 0 <= i < map.len() ==> (#[trigger] map[i]) < map.len()
}

/// The index reached from `start` after `k` hops along `map`.
pub open spec fn hops(map: Seq<usize>, start: int, k: nat) -> int
    decreases k,
{
    if k == 0 {
        start
    } else {
        map[hops(map, start, (k - 1) as nat)] as int
    }
}

/// `cycle` sends each entry of `order` to the entry after it, and the last
/// entry back to the first.
pub open spec fn follows(cycle: Seq<usize>, order: Seq<usize>) -> bool {
    &&& cycle.len() == order.len()
    &&& forall|k: int|
        0 <= k < order.len() ==> #[trigger] cycle[order[k] as int] == order[(k + 1) % (
        order.len() as int)]
}

/// `map` is one cycle through all of its slots: from any slot, `map.len()`
/// hops lead back to it and no smaller positive number of hops does.
pub open spec fn is_single_cycle(map: Seq<usize>) -> bool {
    &&& map.len() >= 1
    &&& in_range(map)
    &&& forall|i: int| 0 <= i < map.len() ==> #[trigger] hops(map, i, map.len()) == i
    &&& forall|i: int, k: nat|
        0 <= i < map.len() && 1 <= k < map.len() ==> #[trigger] hops(map, i, k) != i
}

/// Every index below the length of a permutation stands at exactly one
/// position in it.
pub proof fn lemma_permutation_covers(order: Seq<usize>, v: int)
    requires
        is_permutation(order),
        0 <= v < order.len(),
    ensures
        exists|p: int|
            0 <= p < order.len() && #[trigger] order[p] == v && forall|q: int|
                0 <= q < order.len() && q != p ==> order[q] != v,
{
    let ints = Seq::new(order.len(), |k: int| order[k] as int);
    assert(ints.no_duplicates());
    ints.unique_seq_to_set();
    let all = set_int_range(0, order.len() as int);
    lemma_int_range(0, order.len() as int);
    assert(ints.to_set().subset_of(all)) by {
        assert forall|x: int| ints.to_set().contains(x) implies all.contains(x) by {
            let k = choose|k: int| 0 <= k < ints.len() && ints[k] == x;
            assert(order[k] < order.len());
        }
    }
    lemma_subset_equality(ints.to_set(), all);
    assert(all.contains(v));
    assert(ints.contains(v));
    let p = choose|p: int| 0 <= p < ints.len() && ints[p] == v;
    assert(order[p] == v);
    assert forall|q: int| 0 <= q < order.len() && q != p implies order[q] != v by {
        if q < p {
            assert(order[q] != order[p]);
        } else {
            assert(order[p] != order[q]);
        }
    }
}

/// Along a cycle that follows `order`, `k` hops from the entry at position `p`
/// lead to the entry `k` positions further on, counted round the end.
pub proof fn lemma_hops_follow_order(cycle: Seq<usize>, order: Seq<usize>, p: int, k: nat)
    requires
        follows(cycle, order),
        is_permutation(order),
        0 <= p < order.len(),
    ensures
        hops(cycle, order[p] as int, k) == order[(p + k) % (order.len() as int)],
    decreases k,
{
    let n = order.len() as int;
    if k == 0 {
        lemma_small_mod(p as nat, n as nat);
    } else {
        lemma_hops_follow_order(cycle, order, p, (k - 1) as nat);
        let q = (p + k - 1) % n;
        assert(0 <= q < n) by {
            vstd::arithmetic::div_mod::lemma_mod_pos_bound(p + k - 1, n);
        }
        assert(hops(cycle, order[p] as int, k) == cycle[order[q] as int]);
        assert((q + 1) % n == (p + k) % n) by {
            lemma_add_mod_noop(p + k - 1, 1, n);
            if n == 1 {
            } else {
                lemma_small_mod(1, n as nat);
            }
        }
    }
}

/// A walk that starts inside a map whose slots all hold indices of the map
/// never leaves it.
pub proof fn lemma_hops_in_range(map: Seq<usize>, start: int, k: nat)
    requires
        in_range(map),
        0 <= start < map.len(),
    ensures
        0 <= hops(map, start, k) < map.len(),
    decreases k,
{
    if k > 0 {
        lemma_hops_in_range(map, start, (k - 1) as nat);
    }
}

/// A map that follows a permutation is one cycle through all of its slots.
pub proof fn lemma_follows_is_single_cycle(cycle: Seq<usize>, order: Seq<usize>)
    requires
        order.len() >= 1,
        is_permutation(order),
        follows(cycle, order),
    ensures
        is_single_cycle(cycle),
{
    let n = order.len() as int;
    assert forall|i: int| 0 <= i < n implies (#[trigger] cycle[i]) < n by {
        lemma_permutation_covers(order, i);
        let p = choose|p: int| 0 <= p < n && #[trigger] order[p] == i;
        vstd::arithmetic::div_mod::lemma_mod_pos_bound(p + 1, n);
    }
    assert forall|i: int| 0 <= i < n implies #[trigger] hops(cycle, i, n as nat) == i by {
        lemma_permutation_covers(order, i);
        let p = choose|p: int| 0 <= p < n && #[trigger] order[p] == i;
        lemma_hops_follow_order(cycle, order, p, n as nat);
        lemma_fundamental_div_mod_converse(p + n, n, 1, p);
    }
    assert forall|i: int, k: nat| 0 <= i < n && 1 <= k < n implies #[trigger] hops(cycle, i, k)
        != i by {
        lemma_permutation_covers(order, i);
        let p = choose|p: int| 0 <= p < n && #[trigger] order[p] == i;
        lemma_hops_follow_order(cycle, order, p, k);
        let q = (p + k) % n;
        vstd::arithmetic::div_mod::lemma_mod_pos_bound(p + k, n);
        if p + k < n {
            lemma_small_mod((p + k) as nat, n as nat);
        } else {
            lemma_fundamental_div_mod_converse(p + k, n, 1, p + k - n);
        }
        assert(q != p);
    }
}

/// Builds the successor map of the cycle that visits the slots in the order
/// given: each entry of `order` is sent to the entry after it, the last one to
/// the first.
pub fn cycle_from_order(order: &Vec<usize>) -> (cycle: Vec<usize>)
    requires
        order.len() >= 1,
        is_permutation(order@),
    ensures
        follows(cycle@, order@),
        is_single_cycle(cycle@),
{
    let len = order.len();
    let mut v: Vec<usize> = Vec::new();
    v.resize(len, 0);
    let mut i: usize = 0;
    while i < len - 1
        invariant
            len == order.len(),
            len >= 1,
            v.len() == len,
            i <= len - 1,
            is_permutation(order@),
            forall|k: int| 0 <= k < i ==> #[trigger] v@[order@[k] as int] == order@[k + 1],
        decreases len - i,
    {
        v.set(order[i], order[i + 1]);
        i += 1;
    }
    v.set(order[len - 1], order[0]);
    proof {
        let n = len as int;
        assert forall|k: int| 0 <= k < n implies #[trigger] v@[order@[k] as int] == order@[(k
            + 1) % n] by {
            if k < n - 1 {
                lemma_small_mod((k + 1) as nat, n as nat);
            } else {
                vstd::arithmetic::div_mod::lemma_mod_self_0(n);
            }
        }
        lemma_follows_is_single_cycle(v@, order@);
    }
    v
}

} // verus!
