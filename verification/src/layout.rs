//! How a cycle lies in memory: plain index slots, slots widened to a cache
//! line, and the one interface through which the traversal reads them all.

use vstd::prelude::*;
use vstd::std_specs::convert::FromSpecImpl;

verus! {

/// The width of a hardware cache line, in bytes.
pub const CACHELINE: usize = 64;

/// A value followed by `S` bytes that are never read, so that consecutive
/// values lie `S` bytes further apart than their own width.
#[derive(Clone, Copy)]
pub struct Padded<T, const S: usize> {
    pub value: T,
    pub pad: [u8; S],
}

impl<T, const S: usize> core::ops::Deref for Padded<T, S> {
    type Target = T;

    fn deref(&self) -> (r: &T)
        ensures
            *r == self.value,
    {
        &self.value
    }
}

impl<T, const S: usize> From<T> for Padded<T, S> {
    fn from(v: T) -> (p: Self) {
        Padded { value: v, pad: [0u8;S] }
    }
}

impl<T, const S: usize> FromSpecImpl<T> for Padded<T, S> {
    open spec fn obeys_from_spec() -> bool {
        true
    }

    open spec fn from_spec(v: T) -> Self {
        Padded { value: v, pad: [0u8;S] }
    }
}

/// A buffer whose reads are shown to lie inside it before they are made:
/// whoever reads at an index proves first that the index is below the length.
/// The compiled read still tests the index against the bounds, as every read
/// of a vector does; the proof makes that test unable to fail. For the
/// indices that a traversal meets, the proof rests on the buffer holding a
/// cycle.
pub struct Unchecked<T>(pub T);

impl<T> core::ops::Deref for Unchecked<T> {
    type Target = T;

    fn deref(&self) -> (r: &T)
        ensures
            *r == self.0,
    {
        &self.0
    }
}

impl<T> core::ops::Index<usize> for Unchecked<Vec<T>> {
    type Output = T;

    fn index(&self, index: usize) -> (r: &T)
        ensures
            *r == self.0@[index as int],
    {
        &self.0[index]
    }
}

impl<T> vstd::std_specs::core::IndexSpecImpl<usize> for Unchecked<Vec<T>> {
    open spec fn index_req(&self, index: &usize) -> bool {
        *index < self.0@.len()
    }
}

/// The values of a sequence of padded slots, without the padding.
pub open spec fn values<const S: usize>(slots: Seq<Padded<usize, S>>) -> Seq<usize> {
    Seq::new(slots.len(), |i: int| slots[i].value)
}

/// Widens every entry of `v` to a padded slot, in the same order.
pub fn pad_slots<const S: usize>(v: &Vec<usize>) -> (slots: Vec<Padded<usize, S>>)
    ensures
        values(slots@) == v@,
{
    let mut slots: Vec<Padded<usize, S>> = Vec::new();
    let mut i: usize = 0;
    while i < v.len()
        invariant
            i <= v.len(),
            slots.len() == i,
            forall|j: int| 0 <= j < i ==> (#[trigger] slots@[j]).value == v@[j],
        decreases v.len() - i,
    {
        slots.push(Padded::from(v[i]));
        i += 1;
    }
    assert(values(slots@) =~= v@);
    slots
}

/// A buffer of slots, each holding the index of the slot to visit next.
pub trait Buffer {
    /// What the slots hold, slot by slot.
    spec fn successors(&self) -> Seq<usize>;

    /// The number of slots.
    fn slots(&self) -> (n: usize)
        ensures
            n == self.successors().len(),
    ;

    /// What the slot at `index` holds.
    fn successor(&self, index: usize) -> (next: usize)
        requires
            index < self.successors().len(),
        ensures
            next == self.successors()[index as int],
    ;
}

/// A buffer whose slots can be rewritten.
pub trait BufferMut: Buffer {
    /// Makes the slot at `index` hold `value`.
    fn set_successor(&mut self, index: usize, value: usize)
        requires
            index < old(self).successors().len(),
        ensures
            final(self).successors() == old(self).successors().update(index as int, value),
    ;
}

impl Buffer for Vec<usize> {
    open spec fn successors(&self) -> Seq<usize> {
        self@
    }

    fn slots(&self) -> (n: usize) {
        self.len()
    }

    fn successor(&self, index: usize) -> (next: usize) {
        self[index]
    }
}

impl BufferMut for Vec<usize> {
    fn set_successor(&mut self, index: usize, value: usize) {
        self.set(index, value);
    }
}

impl Buffer for Unchecked<Vec<usize>> {
    open spec fn successors(&self) -> Seq<usize> {
        self.0@
    }

    fn slots(&self) -> (n: usize) {
        self.0.len()
    }

    fn successor(&self, index: usize) -> (next: usize) {
        self[index]
    }
}

impl BufferMut for Unchecked<Vec<usize>> {
    fn set_successor(&mut self, index: usize, value: usize) {
        self.0.set(index, value);
    }
}

impl<const S: usize> Buffer for Unchecked<Vec<Padded<usize, S>>> {
    open spec fn successors(&self) -> Seq<usize> {
        values(self.0@)
    }

    fn slots(&self) -> (n: usize) {
        self.0.len()
    }

    fn successor(&self, index: usize) -> (next: usize) {
        *self[index]
    }
}

impl<const S: usize> BufferMut for Unchecked<Vec<Padded<usize, S>>> {
    fn set_successor(&mut self, index: usize, value: usize) {
        self.0.set(index, Padded::from(value));
        assert(self.successors() =~= old(self).successors().update(index as int, value));
    }
}

} // verus!
