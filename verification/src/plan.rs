//! Which experiments a run is made of, in what order, and what they are
//! called.

use vstd::prelude::*;
use vstd::string::StringExecFns;

verus! {

/// How the cycle lies in memory and how its slots are read.
#[derive(Clone, Copy, Debug, PartialEq, Eq, Structural)]
pub enum Layout {
    /// Index slots; the walk ends without a result if a read would fall
    /// outside the buffer.
    Checked,
    /// Index slots; every read is proved to fall inside the buffer.
    Unchecked,
    /// Index slots, one to a cache line.
    Padded,
    /// Address slots.
    Raw,
    /// Address slots, one to a cache line.
    RawPadded,
    /// Index slots, one to a cache line, in aligned memory.
    PaddedAligned,
    /// Address slots, one to a cache line, in aligned memory.
    RawPaddedAligned,
}

/// One experiment.
#[derive(Clone, Copy, Debug, PartialEq, Eq, Structural)]
pub enum Experiment {
    /// A single cursor on the given layout.
    Latency(Layout),
    /// `batch` cursors on address slots in aligned memory, one slot to a
    /// cache line; each hop is followed by a prefetch hint if `prefetch` is
    /// set, and by `work` rounds of arithmetic.
    Batch { batch: usize, prefetch: bool, work: usize },
}

/// The experiments of the latency run.
pub open spec fn latency_plan() -> Seq<Experiment> {
    seq![
        Experiment::Latency(Layout::Checked),
        Experiment::Latency(Layout::Unchecked),
        Experiment::Latency(Layout::Padded),
        Experiment::Latency(Layout::RawPadded),
        Experiment::Latency(Layout::PaddedAligned),
    ]
}

/// A batch experiment.
pub open spec fn batched(batch: usize, prefetch: bool, work: usize) -> Experiment {
    Experiment::Batch { batch, prefetch, work }
}

/// The experiments of the batch run: the plain traversal at ten widths, then
/// at width 16 the hint alone, the three work levels alone, and the three work
/// levels with the hint.
pub open spec fn batch_plan() -> Seq<Experiment> {
    seq![
        batched(1, false, 0),
        batched(2, false, 0),
        batched(4, false, 0),
        batched(8, false, 0),
        batched(10, false, 0),
        batched(11, false, 0),
        batched(12, false, 0),
        batched(13, false, 0),
        batched(16, false, 0),
        batched(32, false, 0),
        batched(16, true, 0),
        batched(16, false, 3),
        batched(16, false, 6),
        batched(16, false, 12),
        batched(16, true, 3),
        batched(16, true, 6),
        batched(16, true, 12),
    ]
}

/// The latency run: one cursor on each of five layouts, in the order in which
/// their results are stored.
pub fn latency_exp() -> (plan: Vec<Experiment>)
    ensures
        plan@ == latency_plan(),
{
    let mut plan: Vec<Experiment> = Vec::new();
    plan.push(Experiment::Latency(Layout::Checked));
    plan.push(Experiment::Latency(Layout::Unchecked));
    plan.push(Experiment::Latency(Layout::Padded));
    plan.push(Experiment::Latency(Layout::RawPadded));
    plan.push(Experiment::Latency(Layout::PaddedAligned));
    assert(plan@ =~= latency_plan());
    plan
}

/// The batch run, in the order in which its results are stored.
pub fn batch_exp() -> (plan: Vec<Experiment>)
    ensures
        plan@ == batch_plan(),
{
    let mut plan: Vec<Experiment> = Vec::new();
    plan.push(Experiment::Batch { batch: 1, prefetch: false, work: 0 });
    plan.push(Experiment::Batch { batch: 2, prefetch: false, work: 0 });
    plan.push(Experiment::Batch { batch: 4, prefetch: false, work: 0 });
    plan.push(Experiment::Batch { batch: 8, prefetch: false, work: 0 });
    plan.push(Experiment::Batch { batch: 10, prefetch: false, work: 0 });
    plan.push(Experiment::Batch { batch: 11, prefetch: false, work: 0 });
    plan.push(Experiment::Batch { batch: 12, prefetch: false, work: 0 });
    plan.push(Experiment::Batch { batch: 13, prefetch: false, work: 0 });
    plan.push(Experiment::Batch { batch: 16, prefetch: false, work: 0 });
    plan.push(Experiment::Batch { batch: 32, prefetch: false, work: 0 });
    plan.push(Experiment::Batch { batch: 16, prefetch: true, work: 0 });
    plan.push(Experiment::Batch { batch: 16, prefetch: false, work: 3 });
    plan.push(Experiment::Batch { batch: 16, prefetch: false, work: 6 });
    plan.push(Experiment::Batch { batch: 16, prefetch: false, work: 12 });
    plan.push(Experiment::Batch { batch: 16, prefetch: true, work: 3 });
    plan.push(Experiment::Batch { batch: 16, prefetch: true, work: 6 });
    plan.push(Experiment::Batch { batch: 16, prefetch: true, work: 12 });
    assert(plan@ =~= batch_plan());
    plan
}

/// The character of the decimal digit `d`.
pub open spec fn digit(d: nat) -> char {
    if d == 0 {
        '0'
    } else if d == 1 {
        '1'
    } else if d == 2 {
        '2'
    } else if d == 3 {
        '3'
    } else if d == 4 {
        '4'
    } else if d == 5 {
        '5'
    } else if d == 6 {
        '6'
    } else if d == 7 {
        '7'
    } else if d == 8 {
        '8'
    } else {
        '9'
    }
}

/// `n` written in decimal digits, without leading zeros.
pub open spec fn decimal(n: nat) -> Seq<char>
    decreases n,
{
    if n < 10 {
        seq![digit(n)]
    } else {
        decimal(n / 10).push(digit(n % 10))
    }
}

/// What a single-cursor experiment on the given layout is called.
pub open spec fn layout_name(layout: Layout) -> Seq<char> {
    match layout {
        Layout::Checked => "pointer_chasing_checked"@,
        Layout::Unchecked => "pointer_chasing"@,
        Layout::Padded => "pointer_chasing_padded"@,
        Layout::Raw => "raw_pointer_chasing"@,
        Layout::RawPadded => "raw_pointer_chasing_padded"@,
        Layout::PaddedAligned => "pointer_chasing_padded_aligned"@,
        Layout::RawPaddedAligned => "raw_pointer_chasing_padded_aligned"@,
    }
}

/// What a batch experiment is called: `batch`, then `_prefetch` if it gives
/// the hint, then `_work` and the number of rounds if there are any, then the
/// number of cursors in angle brackets.
pub open spec fn batch_name(batch: usize, prefetch: bool, work: usize) -> Seq<char> {
    "batch"@ + (if prefetch {
        "_prefetch"@
    } else {
        Seq::<char>::empty()
    }) + (if work > 0 {
        "_work"@ + decimal(work as nat)
    } else {
        Seq::<char>::empty()
    }) + "<"@ + decimal(batch as nat) + ">"@
}

/// The text of one decimal digit.
fn digit_text(d: usize) -> (text: &'static str)
    requires
        d < 10,
    ensures
        text@ == seq![digit(d as nat)],
{
    proof {
        reveal_strlit("0");
        reveal_strlit("1");
        reveal_strlit("2");
        reveal_strlit("3");
        reveal_strlit("4");
        reveal_strlit("5");
        reveal_strlit("6");
        reveal_strlit("7");
        reveal_strlit("8");
        reveal_strlit("9");
    }
    let text = if d == 0 {
        "0"
    } else if d == 1 {
        "1"
    } else if d == 2 {
        "2"
    } else if d == 3 {
        "3"
    } else if d == 4 {
        "4"
    } else if d == 5 {
        "5"
    } else if d == 6 {
        "6"
    } else if d == 7 {
        "7"
    } else if d == 8 {
        "8"
    } else {
        "9"
    };
    assert(text@ =~= seq![digit(d as nat)]);
    text
}

/// Adds `n` in decimal digits to the end of `text`.
fn append_decimal(text: &mut String, n: usize)
    ensures
        final(text)@ == old(text)@ + decimal(n as nat),
    decreases n,
{
    if n >= 10 {
        append_decimal(text, n / 10);
    }
    text.append(digit_text(n % 10));
    assert(text@ =~= old(text)@ + decimal(n as nat));
}

impl Experiment {
    /// What the experiment is called in the results.
    pub open spec fn name_of(self) -> Seq<char> {
        match self {
            Experiment::Latency(layout) => layout_name(layout),
            Experiment::Batch { batch, prefetch, work } => batch_name(batch, prefetch, work),
        }
    }

    /// What the experiment is called in the results.
    pub fn name(&self) -> (name: String)
        ensures
            name@ == self.name_of(),
    {
        match self {
            Experiment::Latency(layout) => {
                let text = match layout {
                    Layout::Checked => "pointer_chasing_checked",
                    Layout::Unchecked => "pointer_chasing",
                    Layout::Padded => "pointer_chasing_padded",
                    Layout::Raw => "raw_pointer_chasing",
                    Layout::RawPadded => "raw_pointer_chasing_padded",
                    Layout::PaddedAligned => "pointer_chasing_padded_aligned",
                    Layout::RawPaddedAligned => "raw_pointer_chasing_padded_aligned",
                };
                String::from_str(text)
            },
            Experiment::Batch { batch, prefetch, work } => {
                let mut name = String::from_str("batch");
                if *prefetch {
                    name.append("_prefetch");
                }
                if *work > 0 {
                    name.append("_work");
                    append_decimal(&mut name, *work);
                }
                name.append("<");
                append_decimal(&mut name, *batch);
                name.append(">");
                assert(name@ =~= batch_name(*batch, *prefetch, *work));
                name
            },
        }
    }
}

} // verus!
