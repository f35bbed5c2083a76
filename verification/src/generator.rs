//! Random single-cycle permutations, made once for each number of slots and
//! kept for later calls.

use vstd::prelude::*;
use std::collections::HashMap;
use rand::seq::SliceRandom;
use crate::cycle::{cycle_from_order, follows, is_permutation, is_single_cycle};

verus! {

broadcast use vstd::std_specs::hash::group_hash_axioms;

/// The indices below `n` in rising order.
pub open spec fn identity(n: nat) -> Seq<usize> {
    Seq::new(n, |i: int| i as usize)
}

/// A sequence with the same entries as the indices below its length, each as
/// often as there, lists every such index once.
pub proof fn lemma_rearranged_identity_is_permutation(order: Seq<usize>, n: nat)
    requires
        n <= usize::MAX,
        order.to_multiset() == identity(n).to_multiset(),
    ensures
        order.len() == n,
        is_permutation(order),
{
    let id = identity(n);
    order.to_multiset_ensures();
    id.to_multiset_ensures();
    assert(id.no_duplicates());
    id.lemma_multiset_has_no_duplicates();
    order.lemma_multiset_has_no_duplicates_conv();
    assert forall|k: int| 0 <= k < order.len() implies (#[trigger] order[k]) < order.len() by {
        assert(order.contains(order[k]));
        assert(id.to_multiset().count(order[k]) > 0);
        assert(id.contains(order[k]));
    }
}

/// The indices below `n` in rising order.
fn identity_order(n: usize) -> (order: Vec<usize>)
    ensures
        order@ == identity(n as nat),
{
    let mut order: Vec<usize> = Vec::new();
    let mut i: usize = 0;
    while i < n
        invariant
            i <= n,
            order@ == identity(i as nat),
        decreases n - i,
    {
        order.push(i);
        i += 1;
        assert(order@ =~= identity(i as nat));
    }
    order
}

/// `SliceRandom::shuffle` of the rand crate, driven by the thread's own
/// generator. It exchanges entries of the slice in pairs and does nothing
/// else, so what comes out holds the entries that went in, each as often as
/// before; in which order is left to chance, and nothing is said of it.
#[verifier::external_body]
fn shuffle(order: &mut Vec<usize>)
    ensures
        final(order)@.to_multiset() == old(order)@.to_multiset(),
{
    order.shuffle(&mut rand::thread_rng());
}

/// A fresh random cycle through `n` slots, with the order in which it visits
/// them.
fn generate(n: usize) -> (out: (Vec<usize>, Vec<usize>))
    requires
        n >= 1,
    ensures
        out.1@.len() == n,
        is_permutation(out.1@),
        follows(out.0@, out.1@),
        is_single_cycle(out.0@),
{
    let mut order = identity_order(n);
    shuffle(&mut order);
    proof {
        lemma_rearranged_identity_is_permutation(order@, n as nat);
    }
    let cycle = cycle_from_order(&order);
    (cycle, order)
}

/// The cycles made so far, by their number of slots.
pub struct DerangementCache {
    entries: HashMap<usize, (Vec<usize>, Vec<usize>)>,
}

impl DerangementCache {
    /// The cycle and the visiting order kept for each number of slots.
    pub closed spec fn view(&self) -> Map<usize, (Seq<usize>, Seq<usize>)> {
        self.entries@.map_values(|e: (Vec<usize>, Vec<usize>)| (e.0@, e.1@))
    }

    /// Every pair kept for `n` slots is a visiting order of `n` slots and the
    /// cycle that follows it.
    pub open spec fn wf(&self) -> bool {
        forall|n: usize| #[trigger]
            self@.contains_key(n) ==> {
                &&& n >= 1
                &&& self@[n].1.len() == n
                &&& is_permutation(self@[n].1)
                &&& follows(self@[n].0, self@[n].1)
            }
    }

    /// A cache that holds nothing yet.
    pub fn new() -> (cache: Self)
        ensures
            cache.wf(),
            cache@ == Map::<usize, (Seq<usize>, Seq<usize>)>::empty(),
    {
        let cache = DerangementCache { entries: HashMap::new() };
        assert(cache@ =~= Map::<usize, (Seq<usize>, Seq<usize>)>::empty());
        cache
    }
}

/// The number of slots of `stride` bytes that fit into `size` bytes.
pub open spec fn element_count(size: usize, stride: usize) -> usize {
    (size / stride) as usize
}

/// A cycle through the slots of `stride` bytes that fit into `size` bytes,
/// and the order in which it visits them. The first call for a number of
/// slots makes the pair at random and keeps it; every later call for that
/// number returns the pair that was kept.
pub fn derangement_with_order(cache: &mut DerangementCache, size: usize, stride: usize) -> (out: (
    Vec<usize>,
    Vec<usize>,
))
    requires
        old(cache).wf(),
        stride >= 1,
        size >= stride,
    ensures
        final(cache).wf(),
        out.1@.len() == element_count(size, stride),
        is_permutation(out.1@),
        follows(out.0@, out.1@),
        is_single_cycle(out.0@),
        final(cache)@.contains_key(element_count(size, stride)),
        final(cache)@[element_count(size, stride)] == (out.0@, out.1@),
        old(cache)@.contains_key(element_count(size, stride)) ==> final(cache)@ == old(cache)@,
        !old(cache)@.contains_key(element_count(size, stride)) ==> final(cache)@ == old(
            cache,
        )@.insert(element_count(size, stride), (out.0@, out.1@)),
{
    let len = size / stride;
    assert(len >= 1) by (nonlinear_arith)
        requires
            size >= stride >= 1,
            len == size / stride,
    ;
    match cache.entries.get(&len) {
        Some(pair) => {
            let cycle = pair.0.clone();
            let order = pair.1.clone();
            proof {
                assert(cache@.contains_key(len));
                assert(cache@[len] == (pair.0@, pair.1@));
                assert(cycle@ =~= pair.0@);
                assert(order@ =~= pair.1@);
                crate::cycle::lemma_follows_is_single_cycle(cycle@, order@);
            }
            (cycle, order)
        },
        None => {
            let (cycle, order) = generate(len);
            let kept_cycle = cycle.clone();
            let kept_order = order.clone();
            assert(kept_cycle@ =~= cycle@);
            assert(kept_order@ =~= order@);
            cache.entries.insert(len, (kept_cycle, kept_order));
            assert(cache@ =~= old(cache)@.insert(len, (cycle@, order@)));
            (cycle, order)
        },
    }
}

/// A cycle through the slots of `stride` bytes that fit into `size` bytes: the
/// one that `derangement_with_order` returns for them.
pub fn derangement(cache: &mut DerangementCache, size: usize, stride: usize) -> (cycle: Vec<usize>)
    requires
        old(cache).wf(),
        stride >= 1,
        size >= stride,
    ensures
        final(cache).wf(),
        is_single_cycle(cycle@),
        cycle@.len() == element_count(size, stride),
        final(cache)@.contains_key(element_count(size, stride)),
        final(cache)@[element_count(size, stride)].0 == cycle@,
        old(cache)@.contains_key(element_count(size, stride)) ==> final(cache)@ == old(cache)@,
        !old(cache)@.contains_key(element_count(size, stride)) ==> final(cache)@.remove(
            element_count(size, stride),
        ) == old(cache)@,
{
    let out = derangement_with_order(cache, size, stride);
    assert(!old(cache)@.contains_key(element_count(size, stride)) ==> cache@.remove(
        element_count(size, stride),
    ) =~= old(cache)@);
    out.0
}

} // verus!
