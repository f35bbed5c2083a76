//! The sizes a sweep visits, and the sweep of one experiment over them.

use vstd::prelude::*;
use crate::measure::Measurement;
use vstd::arithmetic::power2::{lemma2_to64, lemma_pow2_strictly_increases, lemma_pow2_unfold, pow2};

verus! {

/// The exponent of the smallest size of a sweep: the one asked for, else 13.
pub open spec fn first_exponent(from: Option<usize>) -> nat {
    match from {
        Some(b) => b as nat,
        None => 13,
    }
}

/// The exponent of the largest size of a sweep: the one asked for, else 28 in
/// a release sweep and 26 in a quick one.
pub open spec fn last_exponent(to: Option<usize>, release: bool) -> nat {
    match to {
        Some(b) => b as nat,
        None => if release {
            28
        } else {
            26
        },
    }
}

/// The sizes taken from the octave that starts at two to the power `b`: the
/// power itself and, in a dense sweep, 5/4, 3/2 and 7/4 of it.
pub open spec fn octave(b: nat, dense: bool) -> Seq<usize> {
    let base = pow2(b);
    if dense {
        seq![base as usize, (base * 5 / 4) as usize, (base * 3 / 2) as usize, (base * 7 / 4) as usize]
    } else {
        seq![base as usize]
    }
}

/// The sizes of `count` octaves in rising order, the first starting at two to
/// the power `from`.
pub open spec fn octaves(from: nat, count: nat, dense: bool) -> Seq<usize>
    decreases count,
{
    if count == 0 {
        Seq::empty()
    } else {
        octaves(from, (count - 1) as nat, dense) + octave((from + count - 1) as nat, dense)
    }
}

/// The number of octaves from exponent `from` to exponent `to`, both included.
pub open spec fn octave_count(from: nat, to: nat) -> nat {
    if to < from {
        0
    } else {
        (to - from + 1) as nat
    }
}

/// The largest number that is computed on the way to the sizes of the octave
/// that starts at two to the power `b`: seven times the power in a dense
/// sweep, else the power itself.
pub open spec fn octave_reach(b: nat, dense: bool) -> nat {
    if dense {
        7 * pow2(b)
    } else {
        pow2(b)
    }
}

/// Octaves that start lower reach less far.
proof fn lemma_octave_reach(b: nat, to: nat, dense: bool)
    requires
        b <= to,
    ensures
        octave_reach(b, dense) <= octave_reach(to, dense),
        b < to ==> 2 * pow2(b) <= pow2(to),
        pow2(b + 1) == 2 * pow2(b),
        1 <= pow2(b) <= octave_reach(b, dense),
{
    lemma_pow2_unfold(b + 1);
    vstd::arithmetic::power2::lemma_pow2_pos(b);
    if b < to {
        lemma_pow2_strictly_increases(b, to);
        if b + 1 < to {
            lemma_pow2_strictly_increases(b + 1, to);
        }
    }
}

/// An octave whose exponent lies more than three below the width of a `usize`
/// reaches no further than a `usize` holds. The last octave of a sweep whose
/// upper bound is left to its default is such an octave on every machine.
pub proof fn lemma_octave_reach_fits(b: nat, dense: bool)
    requires
        b + 3 < usize::BITS,
    ensures
        octave_reach(b, dense) <= usize::MAX,
{
    lemma2_to64();
    vstd::arithmetic::power2::lemma2_to64_rest();
    vstd::arithmetic::power2::lemma_pow2_adds(b, 3);
    vstd::arithmetic::power2::lemma_pow2_pos(b);
    if usize::BITS == 32 {
        if b + 3 < 31 {
            lemma_pow2_strictly_increases(b + 3, 31);
        }
    } else {
        if b + 3 < 63 {
            lemma_pow2_strictly_increases(b + 3, 63);
        }
    }
}

/// Adds the sizes of the octave that starts at `base` to `v`.
fn push_octave(v: &mut Vec<usize>, base: usize, dense: bool, Ghost(b): Ghost<nat>)
    requires
        base == pow2(b),
        octave_reach(b, dense) <= usize::MAX,
    ensures
        final(v)@ == old(v)@ + octave(b, dense),
{
    v.push(base);
    if dense {
        v.push(base * 5 / 4);
        v.push(base * 3 / 2);
        v.push(base * 7 / 4);
    }
    assert(v@ =~= old(v)@ + octave(b, dense));
}

/// The working-set sizes of a sweep, in bytes and in rising order: one octave
/// for each exponent from `from` (13 if absent) to `to` (if absent, 28 in a
/// release sweep and 26 otherwise); a release sweep is dense, and so is one
/// asked to be. What is computed on the way to the largest sizes, seven times
/// the last power of two in a dense sweep, must fit a `usize`.
pub fn sizes(from: Option<usize>, to: Option<usize>, release: bool, dense: bool) -> (v: Vec<usize>)
    requires
        first_exponent(from) <= last_exponent(to, release) ==> octave_reach(
            last_exponent(to, release),
            release || dense,
        ) <= usize::MAX,
    ensures
        v@ == octaves(
            first_exponent(from),
            octave_count(first_exponent(from), last_exponent(to, release)),
            release || dense,
        ),
{
    let mut v: Vec<usize> = Vec::new();
    let from: usize = match from {
        Some(b) => b,
        None => 13,
    };
    let dense = release || dense;
    let to: usize = match to {
        Some(b) => b,
        None => if release {
            28
        } else {
            26
        },
    };
    if to < from {
        return v;
    }
    let mut base: usize = 1;
    let mut b: usize = 0;
    proof {
        lemma2_to64();
    }
    while b < from
        invariant
            b <= from <= to,
            octave_reach(to as nat, dense) <= usize::MAX,
            base == pow2(b as nat),
        decreases from - b,
    {
        proof {
            lemma_octave_reach(b as nat, to as nat, dense);
            lemma_octave_reach(to as nat, to as nat, dense);
        }
        base = base * 2;
        b += 1;
    }
    while b < to
        invariant
            from <= b <= to,
            octave_reach(to as nat, dense) <= usize::MAX,
            base == pow2(b as nat),
            v@ == octaves(from as nat, (b - from) as nat, dense),
        decreases to - b,
    {
        proof {
            lemma_octave_reach(b as nat, to as nat, dense);
            lemma_octave_reach(to as nat, to as nat, dense);
        }
        push_octave(&mut v, base, dense, Ghost(b as nat));
        base = base * 2;
        b += 1;
    }
    push_octave(&mut v, base, dense, Ghost(to as nat));
    v
}

/// How often a sweep is repeated: three times in a release sweep, else once.
pub open spec fn repetitions(release: bool) -> nat {
    if release {
        3
    } else {
        1
    }
}

/// `m` is `measured`, filed under `name` as repetition `run`.
pub open spec fn filed(m: Measurement, measured: Measurement, name: Seq<char>, run: int) -> bool {
    &&& m.name@ == name
    &&& m.run == run
    &&& m.size == measured.size
    &&& m.batch == measured.batch
    &&& m.steps == measured.steps
    &&& m.duration_ns == measured.duration_ns
    &&& m.freq == measured.freq
    &&& m.alignment == measured.alignment
}

/// `m` is a record that `f` measured for `size`, filed under `name` as
/// repetition `run`.
pub open spec fn measured_by<F: Fn(usize) -> Measurement>(
    f: F,
    size: usize,
    m: Measurement,
    name: Seq<char>,
    run: int,
) -> bool {
    exists|measured: Measurement| #[trigger]
        f.ensures((size,), measured) && filed(m, measured, name, run)
}

/// Where the record of size number `i` in repetition `run` stands in the
/// results, after `before` earlier records, in a sweep over `sizes` sizes.
pub open spec fn record_index(before: int, sizes: int, run: int, i: int) -> int {
    before + run * sizes + i
}

/// Sweeps one experiment over `sizes`, three times in a release sweep and
/// once otherwise: `f` measures one size, and each record is filed under
/// `name` with the number of its repetition and added to `results`,
/// repetition by repetition and size by size.
pub fn run_experiment<F: Fn(usize) -> Measurement>(
    f: F,
    name: &str,
    release: bool,
    sizes: &Vec<usize>,
    results: &mut Vec<Measurement>,
)
    requires
        forall|i: int| 0 <= i < sizes.len() ==> f.requires((#[trigger] sizes@[i],)),
    ensures
        final(results)@.len() == old(results)@.len() + repetitions(release) * sizes.len(),
        forall|i: int| 0 <= i < old(results)@.len() ==> final(results)@[i] == old(results)@[i],
        forall|run: int, i: int|
            0 <= run < repetitions(release) && 0 <= i < sizes.len() ==> measured_by(
                f,
                sizes@[i],
                final(results)@[#[trigger] record_index(
                    old(results)@.len() as int,
                    sizes.len() as int,
                    run,
                    i,
                )],
                name@,
                run,
            ),
{
    let runs: usize = if release {
        3
    } else {
        1
    };
    let ghost before = results@;
    let ghost n = sizes.len() as int;
    let ghost start = before.len() as int;
    let mut run: usize = 0;
    while run < runs
        invariant
            run <= runs,
            runs == repetitions(release),
            n == sizes.len(),
            start == before.len(),
            forall|i: int| 0 <= i < sizes.len() ==> f.requires((#[trigger] sizes@[i],)),
            results@.len() == start + run * n,
            forall|i: int| 0 <= i < start ==> results@[i] == before[i],
            forall|r: int, i: int|
                0 <= r < run && 0 <= i < n ==> measured_by(
                    f,
                    sizes@[i],
                    results@[#[trigger] record_index(start, n, r, i)],
                    name@,
                    r,
                ),
        decreases runs - run,
    {
        let mut i: usize = 0;
        while i < sizes.len()
            invariant
                i <= sizes.len(),
                run < runs,
                n == sizes.len(),
                start == before.len(),
                forall|i: int| 0 <= i < sizes.len() ==> f.requires((#[trigger] sizes@[i],)),
                results@.len() == start + run * n + i,
                forall|j: int| 0 <= j < start ==> results@[j] == before[j],
                forall|r: int, j: int|
                    0 <= r < run && 0 <= j < n ==> measured_by(
                        f,
                        sizes@[j],
                        results@[#[trigger] record_index(start, n, r, j)],
                        name@,
                        r,
                    ),
                forall|j: int|
                    0 <= j < i ==> measured_by(
                        f,
                        sizes@[j],
                        results@[#[trigger] record_index(start, n, run as int, j)],
                        name@,
                        run as int,
                    ),
            decreases sizes.len() - i,
        {
            let measured = f(sizes[i]);
            let ghost earlier = results@;
            let m = Measurement {
                name: name.to_owned(),
                size: measured.size,
                run,
                batch: measured.batch,
                steps: measured.steps,
                duration_ns: measured.duration_ns,
                freq: measured.freq,
                alignment: measured.alignment,
            };
            proof {
                assert(f.ensures((sizes@[i as int],), measured));
                assert(filed(m, measured, name@, run as int));
                assert(measured_by(f, sizes@[i as int], m, name@, run as int));
            }
            results.push(m);
            proof {
                assert forall|r: int, j: int| 0 <= r < run && 0 <= j < n implies measured_by(
                    f,
                    sizes@[j],
                    results@[#[trigger] record_index(start, n, r, j)],
                    name@,
                    r,
                ) by {
                    assert(r * n + n <= run * n) by (nonlinear_arith)
                        requires
                            r < run,
                            0 <= n,
                    ;
                    let at = record_index(start, n, r, j);
                    assert(results@[at] == earlier[at]);
                }
                assert forall|j: int| 0 <= j < i + 1 implies measured_by(
                    f,
                    sizes@[j],
                    results@[#[trigger] record_index(start, n, run as int, j)],
                    name@,
                    run as int,
                ) by {
                    let at = record_index(start, n, run as int, j);
                    if j < i {
                        assert(results@[at] == earlier[at]);
                    } else {
                        assert(results@[at] == m);
                    }
                }
            }
            i += 1;
        }
        proof {
            assert(run * n + n == (run + 1) * n) by (nonlinear_arith);
        }
        run += 1;
    }
}

} // verus!
