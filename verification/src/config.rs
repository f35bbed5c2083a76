//! What is asked of an experiment's parameters before anything is measured.

use vstd::prelude::*;

verus! {

/// Why an experiment cannot be run as it was asked for.
#[derive(Clone, Copy, Debug, PartialEq, Eq, Structural)]
pub enum ConfigError {
    /// The size is not a whole number of slots.
    Ragged,
    /// The size holds no slot.
    NoSlots,
    /// There is no cursor.
    NoCursors,
    /// There are more cursors than slots.
    TooManyCursors,
}

/// What is wrong with `batch` cursors on `size` bytes of slots `stride` bytes
/// apart, if anything; the first of the faults in the order in which they are
/// looked for.
pub open spec fn config_error(size: usize, stride: usize, batch: usize) -> Option<ConfigError> {
    if size % stride != 0 {
        Some(ConfigError::Ragged)
    } else if size / stride == 0 {
        Some(ConfigError::NoSlots)
    } else if batch == 0 {
        Some(ConfigError::NoCursors)
    } else if batch > size / stride {
        Some(ConfigError::TooManyCursors)
    } else {
        None
    }
}

/// Validates an experiment's parameters and returns the number of slots:
/// `size` must be a whole number of slots of `stride` bytes and hold at least
/// one, and there must be at least one cursor and at most one for each slot.
pub fn check_config(size: usize, stride: usize, batch: usize) -> (r: Result<usize, ConfigError>)
    requires
        stride >= 1,
    ensures
        match config_error(size, stride, batch) {
            Some(e) => r == Err::<usize, ConfigError>(e),
            None => r == Ok::<usize, ConfigError>((size / stride) as usize),
        },
{
    if size % stride != 0 {
        return Err(ConfigError::Ragged);
    }
    let slots = size / stride;
    if slots == 0 {
        Err(ConfigError::NoSlots)
    } else if batch == 0 {
        Err(ConfigError::NoCursors)
    } else if batch > slots {
        Err(ConfigError::TooManyCursors)
    } else {
        Ok(slots)
    }
}

/// The largest number of hops not above `steps` that `batch` cursors make in
/// whole rounds.
pub fn whole_rounds(steps: usize, batch: usize) -> (hops: usize)
    requires
        batch >= 1,
    ensures
        hops == steps - steps % batch,
        hops % batch == 0,
        hops <= steps < hops + batch,
{
    proof {
        vstd::arithmetic::div_mod::lemma_fundamental_div_mod(steps as int, batch as int);
        vstd::arithmetic::div_mod::lemma_mod_multiples_basic(steps as int / batch as int, batch as int);
        vstd::arithmetic::mul::lemma_mul_is_commutative(batch as int, steps as int / batch as int);
    }
    steps - steps % batch
}

} // verus!
