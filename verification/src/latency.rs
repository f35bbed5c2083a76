//! One cursor walking the cycle, on each of the layouts.

use vstd::prelude::*;
use crate::address::{is_slot_address, lemma_slot_index, slot_address, Addresses};
use crate::aligned::AlignedVec;
use crate::cycle::{hops, in_range, lemma_hops_in_range};
use crate::layout::{Buffer, Padded, Unchecked};

verus! {

/// The first `k` hops of the walk from `start` all start inside `map`.
pub open spec fn stays_inside(map: Seq<usize>, start: int, k: nat) -> bool {
    forall|j: nat| j < k ==> 0 <= #[trigger] hops(map, start, j) < map.len()
}

/// A walk that starts inside a map whose slots all hold indices of the map
/// stays inside it, however long it is.
pub proof fn lemma_walk_stays_inside(map: Seq<usize>, start: int, k: nat)
    requires
        in_range(map),
        0 <= start < map.len(),
    ensures
        stays_inside(map, start, k),
{
    assert forall|j: nat| j < k implies 0 <= #[trigger] hops(map, start, j) < map.len() by {
        lemma_hops_in_range(map, start, j);
    }
}

/// Walks `steps` hops from slot 0 and tests every index against the bounds
/// before it reads there. Returns the slot reached, or nothing if the walk
/// was about to read outside the buffer.
pub fn pointer_chasing_checked(v: &Vec<usize>, steps: usize) -> (r: Option<usize>)
    ensures
        r is Some <==> stays_inside(v@, 0, steps as nat),
        r matches Some(i) ==> i == hops(v@, 0, steps as nat),
        in_range(v@) && v.len() >= 1 ==> r is Some,
{
    let mut i: usize = 0;
    let mut done: usize = 0;
    while done < steps
        invariant
            done <= steps,
            i == hops(v@, 0, done as nat),
            stays_inside(v@, 0, done as nat),
        decreases steps - done,
    {
        if i >= v.len() {
            proof {
                assert(!(0 <= hops(v@, 0, done as nat) < v@.len()));
                if in_range(v@) && v.len() >= 1 {
                    lemma_hops_in_range(v@, 0, done as nat);
                }
            }
            return None;
        }
        i = v[i];
        done += 1;
    }
    proof {
        if in_range(v@) && v.len() >= 1 {
            lemma_walk_stays_inside(v@, 0, steps as nat);
        }
    }
    Some(i)
}

/// Walks `steps` hops from slot `start`. That each read lies inside the
/// buffer follows from what the slots hold: the bounds test that the compiled
/// read still makes is proved unable to fail, and the walk has no outcome
/// for a read that falls outside.
pub fn chase<V: Buffer>(v: &V, start: usize, steps: usize) -> (i: usize)
    requires
        in_range(v.successors()),
        start < v.successors().len(),
    ensures
        i == hops(v.successors(), start as int, steps as nat),
        i < v.successors().len(),
{
    let mut i: usize = start;
    let mut done: usize = 0;
    while done < steps
        invariant
            done <= steps,
            in_range(v.successors()),
            start < v.successors().len(),
            i == hops(v.successors(), start as int, done as nat),
            i < v.successors().len(),
        decreases steps - done,
    {
        i = v.successor(i);
        done += 1;
    }
    i
}

/// Walks `steps` hops from slot 0 of plain index slots.
pub fn pointer_chasing(v: &Unchecked<Vec<usize>>, steps: usize) -> (i: usize)
    requires
        v.0@.len() >= 1,
        in_range(v.0@),
    ensures
        i == hops(v.0@, 0, steps as nat),
{
    chase(v, 0, steps)
}

/// Walks `steps` hops from slot 0 of padded index slots.
pub fn pointer_chasing_padded<const S: usize>(
    v: &Unchecked<Vec<Padded<usize, S>>>,
    steps: usize,
) -> (i: usize)
    requires
        v.successors().len() >= 1,
        in_range(v.successors()),
    ensures
        i == hops(v.successors(), 0, steps as nat),
{
    chase(v, 0, steps)
}

/// Walks `steps` hops from slot 0 of padded index slots in aligned memory.
pub fn pointer_chasing_padded_aligned(v: &AlignedVec, steps: usize) -> (i: usize)
    requires
        in_range(v@),
    ensures
        i == hops(v@, 0, steps as nat),
{
    proof {
        use_type_invariant(v);
        v.lemma_not_empty();
    }
    chase(v, 0, steps)
}

/// Follows addresses for `steps` reads, starting with the address that slot 0
/// holds. Returns the address reached: that of the slot which a walk of
/// `steps` hops reaches from the slot that slot 0 points to.
pub fn chase_addresses<V: Buffer>(v: &Addresses<V>, steps: usize) -> (address: usize)
    requires
        v.addresses().len() >= 1,
    ensures
        address == slot_address(
            v.base_address() as int,
            v.stride_bytes() as int,
            hops(v.targets(), v.targets()[0] as int, steps as nat),
        ),
        is_slot_address(
            v.base_address() as int,
            v.stride_bytes() as int,
            v.addresses().len() as int,
            address as int,
        ),
{
    let ghost base = v.base_address() as int;
    let ghost stride = v.stride_bytes() as int;
    let ghost n = v.addresses().len() as int;
    let stride_bytes = v.stride();
    let mut address = v.first();
    let mut done: usize = 0;
    proof {
        lemma_slot_index(base, stride, n, address as int);
    }
    while done < steps
        invariant
            done <= steps,
            base == v.base_address(),
            stride == v.stride_bytes(),
            stride >= 1,
            n == v.addresses().len(),
            is_slot_address(base, stride, n, address as int),
            address == slot_address(
                base,
                stride,
                hops(v.targets(), v.targets()[0] as int, done as nat),
            ),
            0 <= hops(v.targets(), v.targets()[0] as int, done as nat) < n,
        decreases steps - done,
    {
        let ghost here = hops(v.targets(), v.targets()[0] as int, done as nat);
        proof {
            crate::address::lemma_slot_address(base, stride, n, here);
        }
        address = v.load(address);
        proof {
            lemma_slot_index(base, stride, n, address as int);
        }
        done += 1;
    }
    address
}

/// Follows addresses held in plain slots for `steps` reads.
pub fn raw_pointer_chasing(v: &Addresses<Unchecked<Vec<usize>>>, steps: usize) -> (address: usize)
    requires
        v.addresses().len() >= 1,
    ensures
        address == slot_address(
            v.base_address() as int,
            v.stride_bytes() as int,
            hops(v.targets(), v.targets()[0] as int, steps as nat),
        ),
{
    chase_addresses(v, steps)
}

/// Follows addresses held in padded slots for `steps` reads.
pub fn raw_pointer_chasing_padded<const S: usize>(
    v: &Addresses<Unchecked<Vec<Padded<usize, S>>>>,
    steps: usize,
) -> (address: usize)
    requires
        v.addresses().len() >= 1,
    ensures
        address == slot_address(
            v.base_address() as int,
            v.stride_bytes() as int,
            hops(v.targets(), v.targets()[0] as int, steps as nat),
        ),
{
    chase_addresses(v, steps)
}

/// Follows addresses held in padded slots in aligned memory for `steps`
/// reads.
pub fn raw_pointer_chasing_padded_aligned(v: &Addresses<AlignedVec>, steps: usize) -> (address:
    usize)
    requires
        v.addresses().len() >= 1,
    ensures
        address == slot_address(
            v.base_address() as int,
            v.stride_bytes() as int,
            hops(v.targets(), v.targets()[0] as int, steps as nat),
        ),
{
    chase_addresses(v, steps)
}

} // verus!
