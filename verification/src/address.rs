//! Address slots: a buffer in which each slot holds the address of the slot
//! to visit next instead of its index.

use vstd::prelude::*;
use vstd::arithmetic::div_mod::{lemma_div_by_multiple, lemma_fundamental_div_mod, lemma_mod_multiples_basic};
use crate::cycle::in_range;
use crate::layout::{Buffer, BufferMut};

verus! {

/// The address of slot `index` in a buffer that starts at `base` and whose
/// slots lie `stride` bytes apart.
pub open spec fn slot_address(base: int, stride: int, index: int) -> int {
    base + index * stride
}

/// The slot to which `address` belongs.
pub open spec fn slot_index(base: int, stride: int, address: int) -> int {
    (address - base) / stride
}

/// `address` is the address of one of the `slots` slots.
pub open spec fn is_slot_address(base: int, stride: int, slots: int, address: int) -> bool {
    &&& base <= address
    &&& (address - base) % stride == 0
    &&& slot_index(base, stride, address) < slots
}

/// The address of a slot is a slot address, and leads back to the slot.
pub proof fn lemma_slot_address(base: int, stride: int, slots: int, index: int)
    requires
        stride >= 1,
        0 <= index < slots,
    ensures
        is_slot_address(base, stride, slots, slot_address(base, stride, index)),
        slot_index(base, stride, slot_address(base, stride, index)) == index,
        slot_address(base, stride, index) + stride <= slot_address(base, stride, slots),
{
    lemma_mod_multiples_basic(index, stride);
    lemma_div_by_multiple(index, stride);
    assert(index * stride + stride <= slots * stride) by (nonlinear_arith)
        requires
            0 <= index < slots,
            stride >= 1,
    ;
}

/// A slot address is the address of the slot it belongs to.
pub proof fn lemma_slot_index(base: int, stride: int, slots: int, address: int)
    requires
        stride >= 1,
        is_slot_address(base, stride, slots, address),
    ensures
        0 <= slot_index(base, stride, address) < slots,
        slot_address(base, stride, slot_index(base, stride, address)) == address,
{
    lemma_fundamental_div_mod(address - base, stride);
    vstd::arithmetic::mul::lemma_mul_is_commutative(stride, (address - base) / stride);
    vstd::arithmetic::div_mod::lemma_div_pos_is_pos(address - base, stride);
}

/// A buffer whose slots hold addresses of its own slots.
pub struct Addresses<V: Buffer> {
    store: V,
    base: usize,
    stride: usize,
}

impl<V: Buffer> Addresses<V> {
    #[verifier::type_invariant]
    spec fn well_formed(self) -> bool {
        &&& self.stride >= 1
        &&& slot_address(self.base as int, self.stride as int, self.store.successors().len() as int)
            <= usize::MAX
        &&& forall|i: int|
            0 <= i < self.store.successors().len() ==> is_slot_address(
                self.base as int,
                self.stride as int,
                self.store.successors().len() as int,
                #[trigger] self.store.successors()[i] as int,
            )
    }

    /// The address at which the buffer is taken to start.
    pub closed spec fn base_address(&self) -> usize {
        self.base
    }

    /// The number of bytes from one slot to the next.
    pub closed spec fn stride_bytes(&self) -> usize {
        self.stride
    }

    /// The addresses that the slots hold, slot by slot.
    pub closed spec fn addresses(&self) -> Seq<usize> {
        self.store.successors()
    }

    /// The slot to which each slot points.
    pub open spec fn targets(&self) -> Seq<usize> {
        Seq::new(
            self.addresses().len(),
            |i: int|
                slot_index(
                    self.base_address() as int,
                    self.stride_bytes() as int,
                    self.addresses()[i] as int,
                ) as usize,
        )
    }

    /// Makes every slot of `store` hold the address of the slot that `cycle`
    /// names for it, for a buffer that starts at `base` with slots `stride`
    /// bytes apart. There is no such buffer if its end lies beyond the largest
    /// address.
    pub fn point(store: V, cycle: &Vec<usize>, base: usize, stride: usize) -> (r: Option<Self>) where
        V: BufferMut,

        requires
            stride >= 1,
            store.successors().len() == cycle.len(),
            in_range(cycle@),
        ensures
            r is Some <==> slot_address(base as int, stride as int, cycle.len() as int)
                <= usize::MAX,
            r matches Some(a) ==> {
                &&& a.base_address() == base
                &&& a.stride_bytes() == stride
                &&& a.targets() == cycle@
                &&& a.addresses().len() == cycle.len()
                &&& forall|i: int|
                    0 <= i < cycle.len() ==> #[trigger] a.addresses()[i] == slot_address(
                        base as int,
                        stride as int,
                        cycle@[i] as int,
                    )
            },
    {
        let n = cycle.len();
        let span = match n.checked_mul(stride) {
            Some(span) => span,
            None => {
                return None;
            },
        };
        if span > usize::MAX - base {
            return None;
        }
        let mut store = store;
        let mut i: usize = 0;
        while i < n
            invariant
                i <= n,
                n == cycle.len(),
                stride >= 1,
                in_range(cycle@),
                store.successors().len() == n,
                base + n * stride <= usize::MAX,
                forall|j: int|
                    0 <= j < i ==> #[trigger] store.successors()[j] == slot_address(
                        base as int,
                        stride as int,
                        cycle@[j] as int,
                    ),
            decreases n - i,
        {
            let target = cycle[i];
            proof {
                lemma_slot_address(base as int, stride as int, n as int, target as int);
            }
            store.set_successor(i, base + target * stride);
            i += 1;
        }
        proof {
            assert forall|j: int| 0 <= j < n implies is_slot_address(
                base as int,
                stride as int,
                n as int,
                #[trigger] store.successors()[j] as int,
            ) by {
                lemma_slot_address(base as int, stride as int, n as int, cycle@[j] as int);
            }
        }
        let a = Addresses { store, base, stride };
        proof {
            assert forall|j: int| 0 <= j < n implies #[trigger] a.targets()[j] == cycle@[j] by {
                lemma_slot_address(base as int, stride as int, n as int, cycle@[j] as int);
            }
            assert(a.targets() =~= cycle@);
        }
        Some(a)
    }

    /// The address at which the buffer is taken to start.
    pub fn base(&self) -> (base: usize)
        ensures
            base == self.base_address(),
    {
        self.base
    }

    /// The number of bytes from one slot to the next.
    pub fn stride(&self) -> (stride: usize)
        ensures
            stride == self.stride_bytes(),
            stride >= 1,
    {
        proof {
            use_type_invariant(self);
        }
        self.stride
    }

    /// The buffer that holds the addresses.
    pub fn store(&self) -> (store: &V)
        ensures
            store.successors() == self.addresses(),
    {
        &self.store
    }

    /// The address held by the first slot.
    pub fn first(&self) -> (address: usize)
        requires
            self.addresses().len() >= 1,
        ensures
            address == self.addresses()[0],
            is_slot_address(
                self.base_address() as int,
                self.stride_bytes() as int,
                self.addresses().len() as int,
                address as int,
            ),
    {
        proof {
            use_type_invariant(self);
        }
        self.store.successor(0)
    }

    /// The address held by the slot at `address`: one read, at the slot that
    /// the address belongs to.
    pub fn load(&self, address: usize) -> (next: usize)
        requires
            is_slot_address(
                self.base_address() as int,
                self.stride_bytes() as int,
                self.addresses().len() as int,
                address as int,
            ),
        ensures
            next == self.addresses()[slot_index(
                self.base_address() as int,
                self.stride_bytes() as int,
                address as int,
            )],
            is_slot_address(
                self.base_address() as int,
                self.stride_bytes() as int,
                self.addresses().len() as int,
                next as int,
            ),
    {
        proof {
            use_type_invariant(self);
            lemma_slot_index(
                self.base as int,
                self.stride as int,
                self.store.successors().len() as int,
                address as int,
            );
        }
        self.store.successor((address - self.base) / self.stride)
    }
}

impl<V: Buffer> Buffer for Addresses<V> {
    open spec fn successors(&self) -> Seq<usize> {
        self.targets()
    }

    fn slots(&self) -> (n: usize) {
        self.store.slots()
    }

    fn successor(&self, index: usize) -> (next: usize) {
        proof {
            use_type_invariant(self);
        }
        let address = self.store.successor(index);
        (address - self.base) / self.stride
    }
}

} // verus!
