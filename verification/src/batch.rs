//! The traversal: several cursors that walk one cycle in turn, with an
//! optional prefetch hint and optional arithmetic after every hop.

use vstd::prelude::*;
use vstd::arithmetic::div_mod::{lemma_div_is_ordered, lemma_div_plus_one, lemma_fundamental_div_mod_converse, lemma_multiply_divide_lt};
use crate::address::{is_slot_address, lemma_slot_address, slot_address, Addresses};
use crate::aligned::{rounded_size, AlignedVec, BufferError, GRANULE};
use crate::config::{check_config, config_error, ConfigError};
use crate::cycle::{hops, in_range, is_permutation, is_single_cycle, lemma_hops_in_range};
use crate::generator::{derangement_with_order, element_count, DerangementCache};
use crate::layout::{Buffer, CACHELINE};

verus! {

/// The upper half of the double-width product of `y` and `x`.
pub open spec fn mul_high(y: usize, x: usize) -> usize {
    ((y * x) / (usize::MAX + 1)) as usize
}

/// One round of the arithmetic done after a hop, on the three values it
/// carries: the first grows by half of itself, the second becomes the upper
/// half of its product with the first, the third adds up the second. Sums wrap.
pub open spec fn work_round(s: (usize, usize, usize)) -> (usize, usize, usize) {
    let x = s.0.wrapping_add(s.0 >> 1);
    let y = mul_high(s.1, x);
    let z = s.2.wrapping_add(y);
    (x, y, z)
}

/// The three values after `rounds` rounds, all three starting at `value`.
pub open spec fn work_rounds(value: usize, rounds: nat) -> (usize, usize, usize)
    decreases rounds,
{
    if rounds == 0 {
        (value, value, value)
    } else {
        work_round(work_rounds(value, (rounds - 1) as nat))
    }
}

/// What a hop that lands on `value` adds to the accumulator: nothing without
/// work, else the third value after `rounds` rounds.
pub open spec fn hop_work(value: usize, rounds: nat) -> usize {
    if rounds == 0 {
        0
    } else {
        work_rounds(value, rounds).2
    }
}

/// The accumulator after the first `t` hops. Hops are counted round by round
/// and, within a round, cursor by cursor: hop number `t - 1` is made by cursor
/// `(t - 1) % seeds.len()` and is that cursor's hop number `(t - 1) /
/// seeds.len() + 1`. Sums wrap.
pub open spec fn work_total(links: Seq<usize>, seeds: Seq<usize>, rounds: nat, t: nat) -> usize
    decreases t,
{
    if t == 0 {
        0
    } else {
        let cursor = (t - 1) % (seeds.len() as int);
        let hop = ((t - 1) / (seeds.len() as int) + 1) as nat;
        work_total(links, seeds, rounds, (t - 1) as nat).wrapping_add(
            hop_work(hops(links, seeds[cursor] as int, hop) as usize, rounds),
        )
    }
}

/// The position in the visiting order at which cursor `k` of `b` starts, on a
/// cycle of `n` slots.
pub open spec fn seed_position(k: int, n: int, b: int) -> int {
    k * n / b
}

/// Up to as many cursors as there are slots start at positions that rise with
/// the cursor's number, all of them inside the visiting order.
pub proof fn lemma_seed_positions_rise(n: int, b: int, j: int, k: int)
    requires
        1 <= b <= n,
        0 <= j < k < b,
    ensures
        0 <= seed_position(j, n, b) < seed_position(k, n, b) < n,
{
    assert(0 <= j * n && j * n + b <= k * n && k * n < b * n) by (nonlinear_arith)
        requires
            1 <= b <= n,
            0 <= j < k < b,
    ;
    lemma_div_plus_one(j * n, b);
    lemma_div_is_ordered(b + j * n, k * n, b);
    lemma_div_is_ordered(0, j * n, b);
    lemma_multiply_divide_lt(k * n, b, n);
}

/// Every cursor starts at a position inside the visiting order.
pub proof fn lemma_seed_position_inside(n: int, b: int, k: int)
    requires
        1 <= n,
        0 <= k < b,
    ensures
        0 <= seed_position(k, n, b) < n,
{
    assert(0 <= k * n && k * n < b * n) by (nonlinear_arith)
        requires
            1 <= n,
            0 <= k < b,
    ;
    lemma_div_is_ordered(0, k * n, b);
    lemma_multiply_divide_lt(k * n, b, n);
}

/// The cursors of a batch of `b`, seeded from a visiting order of at least `b`
/// slots, start on slots that differ from one another.
pub proof fn lemma_seeds_distinct(order: Seq<usize>, b: int, j: int, k: int)
    requires
        is_permutation(order),
        1 <= b <= order.len(),
        0 <= j < b,
        0 <= k < b,
        j != k,
    ensures
        order[seed_position(j, order.len() as int, b)] != order[seed_position(
            k,
            order.len() as int,
            b,
        )],
{
    if j < k {
        lemma_seed_positions_rise(order.len() as int, b, j, k);
    } else {
        lemma_seed_positions_rise(order.len() as int, b, k, j);
    }
}

/// Picks the slots on which the `B` cursors start: cursor `k` starts on the
/// slot that the order visits at position `k * order.len() / B`. No two
/// cursors start on the same slot as long as there are no more cursors than
/// slots.
pub fn seed_cursors<const B: usize>(order: &Vec<usize>) -> (seeds: [usize; B])
    requires
        B >= 1,
        order.len() >= 1,
    ensures
        forall|k: int|
            0 <= k < B ==> seeds[k] == order@[seed_position(k, order.len() as int, B as int)],
        forall|k: int|
            0 <= k < B ==> 0 <= #[trigger] seed_position(k, order.len() as int, B as int)
                < order.len(),
        is_permutation(order@) && B <= order.len() ==> forall|j: int, k: int|
            0 <= j < B && 0 <= k < B && j != k ==> seeds[j] != seeds[k],
{
    let n = order.len();
    let mut seeds: [usize; B] = [0usize;B];
    let mut k: usize = 0;
    while k < B
        invariant
            k <= B,
            B >= 1,
            n == order.len(),
            n >= 1,
            forall|j: int|
                0 <= j < k ==> seeds[j] == order@[seed_position(j, order.len() as int, B as int)],
        decreases B - k,
    {
        assert(0 <= k * n <= usize::MAX * usize::MAX && k * n < B * n) by (nonlinear_arith)
            requires
                0 <= k < B <= usize::MAX,
                1 <= n <= usize::MAX,
        ;
        assert(usize::MAX * usize::MAX <= u128::MAX) by (nonlinear_arith);
        proof {
            lemma_multiply_divide_lt(k * n, B as int, n as int);
            lemma_div_is_ordered(0, k * n, B as int);
        }
        let position = ((k as u128) * (n as u128) / (B as u128)) as usize;
        seeds[k] = order[position];
        k += 1;
    }
    proof {
        assert forall|k: int| 0 <= k < B implies 0 <= #[trigger] seed_position(
            k,
            order.len() as int,
            B as int,
        ) < order.len() by {
            lemma_seed_position_inside(order.len() as int, B as int, k);
        }
        if is_permutation(order@) && B <= order.len() {
            assert forall|j: int, k: int| 0 <= j < B && 0 <= k < B && j != k implies seeds[j]
                != seeds[k] by {
                lemma_seeds_distinct(order@, B as int, j, k);
            }
        }
    }
    seeds
}

/// The upper half of the double-width product of `y` and `x`.
fn multiply_high(y: usize, x: usize) -> (r: usize)
    ensures
        r == mul_high(y, x),
{
    let m: u128 = usize::MAX as u128 + 1;
    assert(0 <= y * x <= usize::MAX * usize::MAX && (y * x) / (usize::MAX + 1) <= usize::MAX)
        by (nonlinear_arith)
        requires
            0 <= y <= usize::MAX,
            0 <= x <= usize::MAX,
    ;
    assert(usize::MAX * usize::MAX <= u128::MAX) by (nonlinear_arith);
    let p: u128 = (y as u128) * (x as u128);
    (p / m) as usize
}

/// The arithmetic done after a hop that lands on `value`: `WORK` rounds, whose
/// outcome goes to the accumulator.
pub fn synthetic_work<const WORK: usize>(value: usize) -> (z: usize)
    ensures
        z == hop_work(value, WORK as nat),
{
    if WORK == 0 {
        return 0;
    }
    let mut x = value;
    let mut y = value;
    let mut z = value;
    let mut i: usize = 0;
    while i < WORK
        invariant
            i <= WORK,
            (x, y, z) == work_rounds(value, i as nat),
        decreases WORK - i,
    {
        x = x.wrapping_add(x >> 1);
        y = multiply_high(y, x);
        z = z.wrapping_add(y);
        i += 1;
    }
    z
}

/// Walks `B` cursors, at least one and at most one for each slot, along the
/// cycle in `v` for `steps` hops in all: `steps / B` rounds, in each of which
/// every cursor makes one hop, cursor 0 first.
/// After each hop, `hint` is called with the slot reached if `PREFETCH` is
/// set, and `WORK` rounds of arithmetic on that slot's index are added to the
/// accumulator if `WORK` is not zero. Returns where each cursor stands at the
/// end, and the accumulator.
pub fn batch_impl<const B: usize, const PREFETCH: bool, const WORK: usize, V: Buffer, H: Fn(usize)>(
    v: &V,
    seeds: [usize; B],
    steps: usize,
    hint: H,
) -> (out: ([usize; B], usize))
    requires
        1 <= B <= v.successors().len(),
        steps % B == 0,
        in_range(v.successors()),
        forall|k: int| 0 <= k < B ==> seeds[k] < v.successors().len(),
        PREFETCH ==> forall|i: usize| i < v.successors().len() ==> hint.requires((i,)),
    ensures
        forall|k: int|
            0 <= k < B ==> out.0[k] == hops(v.successors(), seeds[k] as int, (steps / B) as nat),
        out.1 == work_total(v.successors(), seeds@, WORK as nat, steps as nat),
{
    let rounds = steps / B;
    let ghost links = v.successors();
    let mut cursors = seeds;
    let mut sum: usize = 0;
    let mut r: usize = 0;
    assert(rounds * B == steps) by {
        vstd::arithmetic::div_mod::lemma_fundamental_div_mod(steps as int, B as int);
        vstd::arithmetic::mul::lemma_mul_is_commutative(B as int, steps as int / B as int);
    }
    while r < rounds
        invariant
            B >= 1,
            r <= rounds,
            rounds * B == steps,
            links == v.successors(),
            in_range(links),
            forall|k: int| 0 <= k < B ==> seeds[k] < links.len(),
            PREFETCH ==> forall|i: usize| i < links.len() ==> hint.requires((i,)),
            forall|k: int| 0 <= k < B ==> cursors[k] == hops(links, seeds[k] as int, r as nat),
            sum == work_total(links, seeds@, WORK as nat, (r * B) as nat),
        decreases rounds - r,
    {
        let mut k: usize = 0;
        assert(r * B + B <= rounds * B) by (nonlinear_arith)
            requires
                r < rounds,
                B >= 1,
        ;
        while k < B
            invariant
                B >= 1,
                k <= B,
                r < rounds,
                r * B + B <= steps,
                links == v.successors(),
                in_range(links),
                forall|j: int| 0 <= j < B ==> seeds[j] < links.len(),
                PREFETCH ==> forall|i: usize| i < links.len() ==> hint.requires((i,)),
                forall|j: int|
                    0 <= j < k ==> cursors[j] == hops(links, seeds[j] as int, (r + 1) as nat),
                forall|j: int| k <= j < B ==> cursors[j] == hops(links, seeds[j] as int, r as nat),
                sum == work_total(links, seeds@, WORK as nat, (r * B + k) as nat),
            decreases B - k,
        {
            proof {
                lemma_hops_in_range(links, seeds[k as int] as int, r as nat);
                lemma_hops_in_range(links, seeds[k as int] as int, (r + 1) as nat);
            }
            let next = v.successor(cursors[k]);
            cursors[k] = next;
            if PREFETCH {
                hint(next);
            }
            if WORK > 0 {
                sum = sum.wrapping_add(synthetic_work::<WORK>(next));
            }
            proof {
                lemma_fundamental_div_mod_converse(r * B + k, B as int, r as int, k as int);
                assert(seeds@.len() == B);
                assert(seeds@[k as int] == seeds[k as int]);
            }
            k += 1;
        }
        assert(r * B + B == (r + 1) * B) by (nonlinear_arith);
        r += 1;
    }
    (cursors, sum)
}

/// Why the buffer and cursors of a batch experiment could not be set up.
#[derive(Clone, Copy, Debug, PartialEq, Eq, Structural)]
pub enum SetupError {
    /// The parameters are not those of an experiment.
    Config(ConfigError),
    /// The buffer could not be made.
    Buffer(BufferError),
}

/// Sets up a batch experiment on `size` bytes: validates the parameters, takes
/// the cycle for that many cache lines from the cache, lays it out as address
/// slots in aligned memory, one slot to a cache line, and seeds `B` cursors
/// along the visiting order. Faults in the parameters are found before
/// anything else is done and leave the cache as it was. Every slot then holds
/// the address of the slot that the cycle names for it, which is the address
/// of a slot of the buffer, and so is the address of every cursor's slot.
pub fn setup_batch<const B: usize>(cache: &mut DerangementCache, size: usize) -> (r: Result<
    (Addresses<AlignedVec>, [usize; B]),
    SetupError,
>)
    requires
        old(cache).wf(),
    ensures
        final(cache).wf(),
        config_error(size, CACHELINE, B) matches Some(e) ==> final(cache)@ == old(cache)@ && r
            == Err::<(Addresses<AlignedVec>, [usize; B]), SetupError>(SetupError::Config(e)),
        config_error(size, CACHELINE, B) is None ==> {
            let n = element_count(size, CACHELINE);
            &&& final(cache)@.contains_key(n)
            &&& old(cache)@.contains_key(n) ==> final(cache)@ == old(cache)@
            &&& r matches Err(f) ==> f is Buffer
            &&& rounded_size(n as int) > usize::MAX ==> r == Err::<
                (Addresses<AlignedVec>, [usize; B]),
                SetupError,
            >(SetupError::Buffer(BufferError::TooLarge))
            &&& r matches Err(SetupError::Buffer(e)) ==> e != BufferError::Empty && (e
                == BufferError::TooLarge <==> rounded_size(n as int) > usize::MAX)
            &&& r matches Ok((v, seeds)) ==> {
                &&& v.targets() == final(cache)@[n].0
                &&& is_single_cycle(v.targets())
                &&& v.stride_bytes() == CACHELINE
                &&& v.base_address() != 0
                &&& v.base_address() % GRANULE == 0
                &&& v.addresses().len() == n
                &&& forall|i: int|
                    0 <= i < n ==> #[trigger] v.addresses()[i] == slot_address(
                        v.base_address() as int,
                        CACHELINE as int,
                        final(cache)@[n].0[i] as int,
                    )
                &&& forall|i: int|
                    0 <= i < n ==> is_slot_address(
                        v.base_address() as int,
                        CACHELINE as int,
                        n as int,
                        #[trigger] v.addresses()[i] as int,
                    )
                &&& forall|k: int|
                    0 <= k < B ==> is_slot_address(
                        v.base_address() as int,
                        CACHELINE as int,
                        n as int,
                        slot_address(
                            v.base_address() as int,
                            CACHELINE as int,
                            #[trigger] seeds[k] as int,
                        ),
                    )
                &&& forall|k: int|
                    0 <= k < B ==> seeds[k] == final(cache)@[n].1[seed_position(
                        k,
                        n as int,
                        B as int,
                    )]
                &&& forall|k: int| 0 <= k < B ==> seeds[k] < n
                &&& forall|j: int, k: int|
                    0 <= j < B && 0 <= k < B && j != k ==> seeds[j] != seeds[k]
            }
        },
{
    let n = match check_config(size, CACHELINE, B) {
        Ok(n) => n,
        Err(e) => {
            return Err(SetupError::Config(e));
        },
    };
    let (cycle, order) = derangement_with_order(cache, size, CACHELINE);
    let buffer = match AlignedVec::zeroed(n) {
        Ok(buffer) => buffer,
        Err(e) => {
            return Err(SetupError::Buffer(e));
        },
    };
    let base = buffer.start_address();
    let v = match Addresses::point(buffer, &cycle, base, CACHELINE) {
        Some(v) => v,
        None => {
            return Err(SetupError::Buffer(BufferError::Unaddressable));
        },
    };
    let seeds = seed_cursors::<B>(&order);
    proof {
        assert forall|i: int| 0 <= i < n implies is_slot_address(
            base as int,
            CACHELINE as int,
            n as int,
            #[trigger] v.addresses()[i] as int,
        ) by {
            lemma_slot_address(base as int, CACHELINE as int, n as int, cycle@[i] as int);
        }
        assert forall|k: int| 0 <= k < B implies is_slot_address(
            base as int,
            CACHELINE as int,
            n as int,
            slot_address(base as int, CACHELINE as int, #[trigger] seeds[k] as int),
        ) by {
            lemma_slot_address(base as int, CACHELINE as int, n as int, seeds[k] as int);
        }
    }
    Ok((v, seeds))
}

/// `batch_impl` with neither hint nor work.
pub fn batch<const B: usize, V: Buffer>(v: &V, seeds: [usize; B], steps: usize) -> (out: (
    [usize; B],
    usize,
))
    requires
        1 <= B <= v.successors().len(),
        steps % B == 0,
        in_range(v.successors()),
        forall|k: int| 0 <= k < B ==> seeds[k] < v.successors().len(),
    ensures
        forall|k: int|
            0 <= k < B ==> out.0[k] == hops(v.successors(), seeds[k] as int, (steps / B) as nat),
        out.1 == 0,
{
    let out = batch_impl::<B, false, 0, V, _>(v, seeds, steps, |_i: usize| {});
    proof {
        lemma_no_work(v.successors(), seeds@, steps as nat);
    }
    out
}

/// Without work the accumulator stays at zero.
pub proof fn lemma_no_work(links: Seq<usize>, seeds: Seq<usize>, t: nat)
    ensures
        work_total(links, seeds, 0, t) == 0,
    decreases t,
{
    if t > 0 {
        lemma_no_work(links, seeds, (t - 1) as nat);
    }
}

/// `batch_impl` with the hint and no work.
pub fn batch_prefetch<const B: usize, V: Buffer, H: Fn(usize)>(
    v: &V,
    seeds: [usize; B],
    steps: usize,
    hint: H,
) -> (out: ([usize; B], usize))
    requires
        1 <= B <= v.successors().len(),
        steps % B == 0,
        in_range(v.successors()),
        forall|k: int| 0 <= k < B ==> seeds[k] < v.successors().len(),
        forall|i: usize| i < v.successors().len() ==> hint.requires((i,)),
    ensures
        forall|k: int|
            0 <= k < B ==> out.0[k] == hops(v.successors(), seeds[k] as int, (steps / B) as nat),
        out.1 == 0,
{
    let out = batch_impl::<B, true, 0, V, H>(v, seeds, steps, hint);
    proof {
        lemma_no_work(v.successors(), seeds@, steps as nat);
    }
    out
}

/// `batch_impl` with three rounds of work after each hop and no hint.
pub fn batch_work3<const B: usize, V: Buffer>(v: &V, seeds: [usize; B], steps: usize) -> (out: (
    [usize; B],
    usize,
))
    requires
        1 <= B <= v.successors().len(),
        steps % B == 0,
        in_range(v.successors()),
        forall|k: int| 0 <= k < B ==> seeds[k] < v.successors().len(),
    ensures
        forall|k: int|
            0 <= k < B ==> out.0[k] == hops(v.successors(), seeds[k] as int, (steps / B) as nat),
        out.1 == work_total(v.successors(), seeds@, 3, steps as nat),
{
    batch_impl::<B, false, 3, V, _>(v, seeds, steps, |_i: usize| {})
}

/// `batch_impl` with the hint and three rounds of work after each hop.
pub fn batch_prefetch_work3<const B: usize, V: Buffer, H: Fn(usize)>(
    v: &V,
    seeds: [usize; B],
    steps: usize,
    hint: H,
) -> (out: ([usize; B], usize))
    requires
        1 <= B <= v.successors().len(),
        steps % B == 0,
        in_range(v.successors()),
        forall|k: int| 0 <= k < B ==> seeds[k] < v.successors().len(),
        forall|i: usize| i < v.successors().len() ==> hint.requires((i,)),
    ensures
        forall|k: int|
            0 <= k < B ==> out.0[k] == hops(v.successors(), seeds[k] as int, (steps / B) as nat),
        out.1 == work_total(v.successors(), seeds@, 3, steps as nat),
{
    batch_impl::<B, true, 3, V, H>(v, seeds, steps, hint)
}

/// `batch_impl` with six rounds of work after each hop and no hint.
pub fn batch_work6<const B: usize, V: Buffer>(v: &V, seeds: [usize; B], steps: usize) -> (out: (
    [usize; B],
    usize,
))
    requires
        1 <= B <= v.successors().len(),
        steps % B == 0,
        in_range(v.successors()),
        forall|k: int| 0 <= k < B ==> seeds[k] < v.successors().len(),
    ensures
        forall|k: int|
            0 <= k < B ==> out.0[k] == hops(v.successors(), seeds[k] as int, (steps / B) as nat),
        out.1 == work_total(v.successors(), seeds@, 6, steps as nat),
{
    batch_impl::<B, false, 6, V, _>(v, seeds, steps, |_i: usize| {})
}

/// `batch_impl` with the hint and six rounds of work after each hop.
pub fn batch_prefetch_work6<const B: usize, V: Buffer, H: Fn(usize)>(
    v: &V,
    seeds: [usize; B],
    steps: usize,
    hint: H,
) -> (out: ([usize; B], usize))
    requires
        1 <= B <= v.successors().len(),
        steps % B == 0,
        in_range(v.successors()),
        forall|k: int| 0 <= k < B ==> seeds[k] < v.successors().len(),
        forall|i: usize| i < v.successors().len() ==> hint.requires((i,)),
    ensures
        forall|k: int|
            0 <= k < B ==> out.0[k] == hops(v.successors(), seeds[k] as int, (steps / B) as nat),
        out.1 == work_total(v.successors(), seeds@, 6, steps as nat),
{
    batch_impl::<B, true, 6, V, H>(v, seeds, steps, hint)
}

/// `batch_impl` with twelve rounds of work after each hop and no hint.
pub fn batch_work12<const B: usize, V: Buffer>(v: &V, seeds: [usize; B], steps: usize) -> (out: (
    [usize; B],
    usize,
))
    requires
        1 <= B <= v.successors().len(),
        steps % B == 0,
        in_range(v.successors()),
        forall|k: int| 0 <= k < B ==> seeds[k] < v.successors().len(),
    ensures
        forall|k: int|
            0 <= k < B ==> out.0[k] == hops(v.successors(), seeds[k] as int, (steps / B) as nat),
        out.1 == work_total(v.successors(), seeds@, 12, steps as nat),
{
    batch_impl::<B, false, 12, V, _>(v, seeds, steps, |_i: usize| {})
}

/// `batch_impl` with the hint and twelve rounds of work after each hop.
pub fn batch_prefetch_work12<const B: usize, V: Buffer, H: Fn(usize)>(
    v: &V,
    seeds: [usize; B],
    steps: usize,
    hint: H,
) -> (out: ([usize; B], usize))
    requires
        1 <= B <= v.successors().len(),
        steps % B == 0,
        in_range(v.successors()),
        forall|k: int| 0 <= k < B ==> seeds[k] < v.successors().len(),
        forall|i: usize| i < v.successors().len() ==> hint.requires((i,)),
    ensures
        forall|k: int|
            0 <= k < B ==> out.0[k] == hops(v.successors(), seeds[k] as int, (steps / B) as nat),
        out.1 == work_total(v.successors(), seeds@, 12, steps as nat),
{
    batch_impl::<B, true, 12, V, H>(v, seeds, steps, hint)
}

} // verus!
