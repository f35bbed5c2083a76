//! The record of one experiment, and what is derived from its timing.

use vstd::prelude::*;
use vstd::arithmetic::power2::{lemma_pow2_unfold, pow2};

verus! {

/// The number of times that two divides `address`; for address zero, the
/// number of bits of an address.
pub open spec fn alignment_of(address: usize) -> nat
    decreases address,
{
    if address == 0 {
        usize::BITS as nat
    } else if address % 2 == 1 {
        0
    } else {
        1 + alignment_of(address / 2)
    }
}

/// An address is a multiple of two to the power of its alignment.
pub proof fn lemma_alignment_divides(address: usize)
    ensures
        address as int % pow2(alignment_of(address)) as int == 0,
    decreases address,
{
    vstd::arithmetic::power2::lemma2_to64();
    if address == 0 {
        vstd::arithmetic::power2::lemma_pow2_pos(usize::BITS as nat);
        vstd::arithmetic::div_mod::lemma_small_mod(0, pow2(usize::BITS as nat));
    } else if address % 2 == 1 {
    } else {
        let half = (address / 2) as usize;
        lemma_alignment_divides(half);
        let a = alignment_of(half);
        lemma_pow2_unfold(a + 1);
        vstd::arithmetic::power2::lemma_pow2_pos(a);
        vstd::arithmetic::div_mod::lemma_fundamental_div_mod(half as int, pow2(a) as int);
        let q = half as int / pow2(a) as int;
        let d: int = 2 * (pow2(a) as int);
        assert(address as int == d * q) by (nonlinear_arith)
            requires
                address as int == 2 * half,
                half as int == pow2(a) * q,
                d == 2 * (pow2(a) as int),
        ;
        vstd::arithmetic::div_mod::lemma_mod_multiples_basic(q, d);
        vstd::arithmetic::mul::lemma_mul_is_commutative(q, d);
    }
}

/// An address other than zero is aligned to fewer bits than an address has.
pub proof fn lemma_alignment_small(address: usize)
    requires
        address != 0,
    ensures
        alignment_of(address) < usize::BITS,
{
    vstd::arithmetic::power2::lemma2_to64();
    if usize::BITS == 32 {
        lemma_alignment_bound(address, 32);
    } else {
        lemma_alignment_bound(address, 64);
    }
}

/// An address below two to the power `e`, and not zero, is aligned to fewer
/// than `e` bits.
proof fn lemma_alignment_bound(address: usize, e: nat)
    requires
        address != 0,
        address < pow2(e),
    ensures
        alignment_of(address) < e,
    decreases address,
{
    vstd::arithmetic::power2::lemma2_to64();
    if e == 0 {
    } else if address % 2 == 1 {
    } else {
        lemma_pow2_unfold(e);
        lemma_alignment_bound((address / 2) as usize, (e - 1) as nat);
    }
}

/// The number of times that two divides `address`; for address zero, the
/// number of bits of an address.
pub fn alignment(address: usize) -> (zeros: usize)
    ensures
        zeros == alignment_of(address),
{
    if address == 0 {
        return usize::BITS as usize;
    }
    let mut rest = address;
    let mut zeros: usize = 0;
    proof {
        lemma_alignment_small(address);
    }
    while rest % 2 == 0
        invariant
            rest != 0,
            zeros + alignment_of(rest) == alignment_of(address),
            zeros <= alignment_of(address) < usize::BITS,
        decreases rest,
    {
        rest = rest / 2;
        zeros += 1;
    }
    zeros
}

/// What one experiment measured.
pub struct Measurement {
    /// The experiment's name.
    pub name: String,
    /// The size of the working set, in bytes.
    pub size: usize,
    /// Which repetition this is, counted from zero.
    pub run: usize,
    /// The number of cursors.
    pub batch: usize,
    /// The number of hops made.
    pub steps: usize,
    /// The time that the hops took, in nanoseconds.
    pub duration_ns: u64,
    /// The clock frequency in Hz, if it could be read.
    pub freq: Option<u64>,
    /// The alignment of the buffer's first byte: the number of times that two
    /// divides its address.
    pub alignment: usize,
}

/// The time per hop in picoseconds, rounded down.
pub open spec fn latency_ps_of(duration_ns: u64, steps: usize) -> int {
    duration_ns * 1000 / (steps as int)
}

/// The clock cycles per hop in thousandths, rounded down.
pub open spec fn cycles_milli_of(duration_ns: u64, freq: u64, steps: usize) -> int {
    duration_ns * freq / (steps * 1_000_000)
}

/// The nanoseconds from the clock reading `start` to the reading `end`; none
/// if the clock ran backwards.
pub open spec fn elapsed_between(start: u64, end: u64) -> u64 {
    if end >= start {
        (end - start) as u64
    } else {
        0
    }
}

/// The nanoseconds from the clock reading `start` to the reading `end`; none
/// if the clock ran backwards.
pub fn elapsed_ns(start: u64, end: u64) -> (d: u64)
    ensures
        d == elapsed_between(start, end),
{
    if end >= start {
        end - start
    } else {
        0
    }
}

impl Measurement {
    /// The record of an experiment that made `steps` hops in `duration_ns`
    /// nanoseconds on a buffer that starts at `address`. It has no name yet
    /// and counts as repetition zero.
    pub fn from_timing(
        size: usize,
        steps: usize,
        batch: usize,
        address: usize,
        duration_ns: u64,
        freq: Option<u64>,
    ) -> (m: Measurement)
        ensures
            m.name@ == Seq::<char>::empty(),
            m.size == size,
            m.run == 0,
            m.batch == batch,
            m.steps == steps,
            m.duration_ns == duration_ns,
            m.freq == freq,
            m.alignment == alignment_of(address),
    {
        Measurement {
            name: String::new(),
            size,
            run: 0,
            batch,
            steps,
            duration_ns,
            freq,
            alignment: alignment(address),
        }
    }

    /// Measures one experiment: reads the clock, runs `body` once, reads the
    /// clock again, and then asks for the clock frequency. The clock counts
    /// nanoseconds; the duration is `elapsed_ns` of the two readings, and the
    /// record is `from_timing` of it.
    pub fn new<F: Fn(), C: Fn() -> u64, Q: Fn() -> Option<u64>>(
        size: usize,
        steps: usize,
        batch: usize,
        address: usize,
        body: F,
        clock: C,
        frequency: Q,
    ) -> (m: Measurement)
        requires
            body.requires(()),
            clock.requires(()),
            frequency.requires(()),
        ensures
            m.name@ == Seq::<char>::empty(),
            m.size == size,
            m.run == 0,
            m.batch == batch,
            m.steps == steps,
            m.alignment == alignment_of(address),
            body.ensures((), ()),
            frequency.ensures((), m.freq),
            exists|start: u64, end: u64|
                clock.ensures((), start) && clock.ensures((), end) && m.duration_ns
                    == elapsed_between(start, end),
    {
        let start = clock();
        body();
        let end = clock();
        let freq = frequency();
        let duration_ns = elapsed_ns(start, end);
        Self::from_timing(size, steps, batch, address, duration_ns, freq)
    }

    /// The time per hop in picoseconds, rounded down; nothing for a record of
    /// no hops.
    pub fn latency_ps(&self) -> (latency: Option<u128>)
        ensures
            self.steps == 0 ==> latency is None,
            self.steps > 0 ==> latency == Some(latency_ps_of(self.duration_ns, self.steps) as u128),
            latency matches Some(l) ==> l * self.steps <= self.duration_ns * 1000 < (l + 1)
                * self.steps,
    {
        if self.steps == 0 {
            return None;
        }
        let scaled: u128 = self.duration_ns as u128 * 1000;
        let latency = scaled / (self.steps as u128);
        proof {
            lemma_floor(scaled as int, self.steps as int);
        }
        Some(latency)
    }

    /// The clock cycles per hop in thousandths, rounded down; nothing if the
    /// frequency is not known, and nothing for a record of no hops.
    pub fn cycles_milli(&self) -> (cycles: Option<u128>)
        ensures
            self.freq is None || self.steps == 0 ==> cycles is None,
            self.freq is Some && self.steps > 0 ==> cycles == Some(
                cycles_milli_of(self.duration_ns, self.freq->Some_0, self.steps) as u128,
            ),
    {
        match self.freq {
            None => None,
            Some(f) => {
                if self.steps == 0 {
                    return None;
                }
                assert(self.duration_ns * f <= u64::MAX * u64::MAX) by (nonlinear_arith)
                    requires
                        0 <= self.duration_ns <= u64::MAX,
                        0 <= f <= u64::MAX,
                ;
                let ticks: u128 = self.duration_ns as u128 * f as u128;
                let per: u128 = self.steps as u128 * 1_000_000;
                proof {
                    lemma_floor(ticks as int, per as int);
                }
                Some(ticks / per)
            },
        }
    }
}

/// The quotient rounded down is the largest whole number of divisors that
/// fits.
proof fn lemma_floor(x: int, d: int)
    requires
        0 <= x,
        0 < d,
    ensures
        0 <= x / d <= x,
        (x / d) * d <= x < (x / d + 1) * d,
{
    vstd::arithmetic::div_mod::lemma_fundamental_div_mod(x, d);
    vstd::arithmetic::div_mod::lemma_mod_pos_bound(x, d);
    vstd::arithmetic::div_mod::lemma_div_pos_is_pos(x, d);
    vstd::arithmetic::mul::lemma_mul_is_commutative(d, x / d);
    vstd::arithmetic::mul::lemma_mul_is_distributive_add_other_way(d, x / d, 1);
    vstd::arithmetic::div_mod::lemma_div_is_ordered_by_denominator(x, 1, d);
    vstd::arithmetic::div_mod::lemma_div_basics(x);
}

} // verus!
