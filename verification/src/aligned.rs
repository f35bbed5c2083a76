//! A buffer of index slots in zeroed memory that starts on a 2 MiB boundary,
//! one slot to a cache line.

use vstd::prelude::*;
use alloc_madvise::{AllocationError, Memory};
use crate::layout::{Buffer, BufferMut, CACHELINE};

verus! {

#[verifier::external_type_specification]
#[verifier::external_body]
pub struct ExMemory(alloc_madvise::Memory);

#[verifier::external_type_specification]
#[verifier::external_body]
pub struct ExAllocationError(alloc_madvise::AllocationError);

/// The machine words that a block of memory holds, in the order of their
/// addresses.
pub uninterp spec fn memory_words(memory: Memory) -> Seq<usize>;

/// The number of bytes that a block of memory holds: those it was made with,
/// and none once it has been freed.
pub uninterp spec fn memory_bytes(memory: Memory) -> nat;

/// The number of bytes of a machine word.
pub open spec fn word_bytes() -> int {
    usize::BITS as int / 8
}

/// The number of bytes to which the size of a block is rounded up.
pub const GRANULE: usize = 2 * 1024 * 1024;

/// `Memory::allocate` of alloc_madvise, asked for zeroed memory and no hint
/// of sequential access. It refuses a request for no bytes. A block that it
/// does hand out has the size asked for, holds as many machine words as fit
/// into that size, and every one of them is zero. Whether a request for some
/// bytes succeeds is left open.
#[verifier::external_body]
fn allocate_zeroed(num_bytes: usize) -> (r: Result<Memory, AllocationError>)
    ensures
        num_bytes == 0 ==> r is Err,
        r matches Ok(m) ==> {
            &&& memory_bytes(m) == num_bytes
            &&& memory_words(m).len() == num_bytes as int / word_bytes()
            &&& forall|i: int| 0 <= i < memory_words(m).len() ==> memory_words(m)[i] == 0
        },
{
    Memory::allocate(num_bytes, false, true)
}

/// `AsRef<[usize]>::as_ref` of an alloc_madvise block, read at one index: the
/// word that the block holds there.
#[verifier::external_body]
fn read_word(memory: &Memory, index: usize) -> (word: usize)
    requires
        index < memory_words(*memory).len(),
    ensures
        word == memory_words(*memory)[index as int],
{
    let words: &[usize] = memory.as_ref();
    words[index]
}

/// `AsMut<[usize]>::as_mut` of an alloc_madvise block, written at one index:
/// the block then holds `word` there and is unchanged elsewhere.
#[verifier::external_body]
fn write_word(memory: &mut Memory, index: usize, word: usize)
    requires
        index < memory_words(*old(memory)).len(),
    ensures
        memory_words(*final(memory)) == memory_words(*old(memory)).update(index as int, word),
        memory_bytes(*final(memory)) == memory_bytes(*old(memory)),
    no_unwind
{
    let words: &mut [usize] = memory.as_mut();
    words[index] = word;
}

/// `Memory::to_ptr_const` of alloc_madvise, as a number: the address at which
/// the block starts. Which address that is, the allocator decides. A block
/// that holds bytes was handed out by the allocator and has not been freed,
/// so its address is not null; and a block of a whole number of 2 MiB granules
/// is asked of the allocator on a 2 MiB boundary.
#[verifier::external_body]
fn start_address(memory: &Memory) -> (address: usize)
    ensures
        memory_bytes(*memory) > 0 ==> address != 0,
        memory_bytes(*memory) > 0 && memory_bytes(*memory) % (GRANULE as nat) == 0 ==> address
            % GRANULE == 0,
{
    memory.to_ptr_const() as usize
}

/// Why a buffer could not be made.
#[derive(Clone, Copy, Debug, PartialEq, Eq, Structural)]
pub enum BufferError {
    /// There is no slot to hold.
    Empty,
    /// The slots, rounded up to whole granules, take more bytes than can be
    /// counted.
    TooLarge,
    /// The allocator refused the request.
    Allocation,
    /// The last slot would end beyond the largest address.
    Unaddressable,
}

/// The number of machine words from one slot to the next.
pub open spec fn words_per_slot() -> int {
    CACHELINE as int / word_bytes()
}

/// The word of the block at which slot `i` starts.
pub open spec fn slot_word(i: int) -> int {
    i * words_per_slot()
}

/// The number of bytes asked of the allocator for `slots` slots: a cache line
/// for each, rounded up to whole granules.
pub open spec fn rounded_size(slots: int) -> int {
    let bytes = slots * CACHELINE;
    if bytes % (GRANULE as int) == 0 {
        bytes
    } else {
        bytes + GRANULE - bytes % (GRANULE as int)
    }
}

/// The number of bytes to ask of the allocator for `len` slots: a cache line
/// for each, rounded up to whole granules of 2 MiB. There is no such number
/// for no slots, nor where it is more than can be counted.
pub fn request_bytes(len: usize) -> (r: Option<usize>)
    ensures
        len >= 1 && rounded_size(len as int) <= usize::MAX ==> r == Some(
            rounded_size(len as int) as usize,
        ),
        len == 0 || rounded_size(len as int) > usize::MAX ==> r is None,
{
    if len == 0 {
        return None;
    }
    proof {
        lemma_rounded_size(len as int);
    }
    let bytes = match len.checked_mul(CACHELINE) {
        Some(bytes) => bytes,
        None => {
            return None;
        },
    };
    let over = bytes % GRANULE;
    if over == 0 {
        Some(bytes)
    } else {
        bytes.checked_add(GRANULE - over)
    }
}

/// `n` slots that all hold zero.
pub open spec fn zeros(n: nat) -> Seq<usize> {
    Seq::new(n, |i: int| 0usize)
}

/// Index slots in zeroed memory that starts on a 2 MiB boundary, each slot at
/// the start of a cache line of its own.
pub struct AlignedVec {
    memory: Memory,
    len: usize,
}

impl AlignedVec {
    /// The buffer has a slot, its slots lie inside its block, and the block is
    /// a whole number of granules.
    #[verifier::type_invariant]
    pub closed spec fn well_formed(self) -> bool {
        &&& self.len >= 1
        &&& self.len * words_per_slot() <= memory_words(self.memory).len() <= usize::MAX
        &&& memory_bytes(self.memory) > 0
        &&& memory_bytes(self.memory) % (GRANULE as nat) == 0
    }

    /// What the slots hold, slot by slot.
    pub closed spec fn view(&self) -> Seq<usize> {
        Seq::new(self.len as nat, |i: int| memory_words(self.memory)[slot_word(i)])
    }

    /// A buffer has at least one slot.
    pub proof fn lemma_not_empty(self)
        requires
            self.well_formed(),
        ensures
            self@.len() >= 1,
    {
    }

    /// The number of machine words from one slot to the next.
    fn stride() -> (words: usize)
        ensures
            words == words_per_slot(),
    {
        proof {
            lemma_word_sizes();
        }
        CACHELINE / ((usize::BITS / 8) as usize)
    }

    /// Takes the block that the allocator handed out, if it did, as a buffer
    /// of `len` slots.
    pub fn from_allocation(allocated: Result<Memory, AllocationError>, len: usize) -> (r: Result<
        AlignedVec,
        BufferError,
    >)
        requires
            len >= 1,
            rounded_size(len as int) <= usize::MAX,
            allocated matches Ok(m) ==> {
                &&& memory_bytes(m) == rounded_size(len as int)
                &&& memory_words(m).len() == memory_bytes(m) as int / word_bytes()
                &&& forall|i: int| 0 <= i < memory_words(m).len() ==> memory_words(m)[i] == 0
            },
        ensures
            allocated is Err ==> r == Err::<AlignedVec, BufferError>(BufferError::Allocation),
            allocated is Ok ==> r is Ok && r->Ok_0@ == zeros(len as nat),
    {
        match allocated {
            Err(_) => Err(BufferError::Allocation),
            Ok(memory) => {
                proof {
                    lemma_rounded_size(len as int);
                    lemma_word_sizes();
                }
                let buffer = AlignedVec { memory, len };
                proof {
                    assert forall|i: int| 0 <= i < len implies buffer@[i] == 0 by {
                        lemma_slot_word(len as int, i);
                    }
                    assert(buffer@ =~= zeros(len as nat));
                }
                Ok(buffer)
            },
        }
    }

    /// A buffer of `len` slots that all hold zero, in zeroed memory on a 2 MiB
    /// boundary. The allocator is asked for `request_bytes(len)` bytes, and
    /// `from_allocation` makes the buffer of what it answers.
    pub fn zeroed(len: usize) -> (r: Result<AlignedVec, BufferError>)
        ensures
            len == 0 ==> r == Err::<AlignedVec, BufferError>(BufferError::Empty),
            len >= 1 && rounded_size(len as int) > usize::MAX ==> r == Err::<
                AlignedVec,
                BufferError,
            >(BufferError::TooLarge),
            len >= 1 && rounded_size(len as int) <= usize::MAX ==> (r matches Ok(buffer)
                && buffer@ == zeros(len as nat)) || r == Err::<AlignedVec, BufferError>(
                BufferError::Allocation,
            ),
    {
        if len == 0 {
            return Err(BufferError::Empty);
        }
        let size = match request_bytes(len) {
            Some(size) => size,
            None => {
                return Err(BufferError::TooLarge);
            },
        };
        proof {
            lemma_rounded_size(len as int);
        }
        let allocated = allocate_zeroed(size);
        Self::from_allocation(allocated, len)
    }

    /// Copies `v` into zeroed memory on a 2 MiB boundary, one entry to a cache
    /// line.
    pub fn from(v: &Vec<usize>) -> (r: Result<AlignedVec, BufferError>)
        ensures
            v.len() == 0 ==> r == Err::<AlignedVec, BufferError>(BufferError::Empty),
            v.len() >= 1 && rounded_size(v.len() as int) > usize::MAX ==> r == Err::<
                AlignedVec,
                BufferError,
            >(BufferError::TooLarge),
            v.len() >= 1 && rounded_size(v.len() as int) <= usize::MAX ==> (r matches Ok(buffer)
                && buffer@ == v@) || r == Err::<AlignedVec, BufferError>(BufferError::Allocation),
    {
        let len = v.len();
        let mut buffer = match Self::zeroed(len) {
            Ok(buffer) => buffer,
            Err(e) => {
                return Err(e);
            },
        };
        let mut i: usize = 0;
        while i < len
            invariant
                i <= len,
                len == v.len(),
                buffer@.len() == len,
                forall|j: int| 0 <= j < i ==> buffer@[j] == v@[j],
            decreases len - i,
        {
            buffer.set(i, v[i]);
            i += 1;
        }
        assert(buffer@ =~= v@);
        Ok(buffer)
    }

    /// The number of slots: at least one.
    pub fn len(&self) -> (n: usize)
        ensures
            n == self@.len(),
            n >= 1,
    {
        proof {
            use_type_invariant(self);
        }
        self.len
    }

    /// What the slot at `index` holds.
    pub fn get(&self, index: usize) -> (value: usize)
        requires
            index < self@.len(),
        ensures
            value == self@[index as int],
    {
        proof {
            use_type_invariant(self);
            lemma_slot_word(self.len as int, index as int);
        }
        let stride = Self::stride();
        read_word(&self.memory, index * stride)
    }

    /// Makes the slot at `index` hold `value`.
    pub fn set(&mut self, index: usize, value: usize)
        requires
            index < old(self)@.len(),
        ensures
            final(self)@ == old(self)@.update(index as int, value),
    {
        proof {
            use_type_invariant(&*self);
            lemma_slot_word(self.len as int, index as int);
        }
        let stride = Self::stride();
        write_word(&mut self.memory, index * stride, value);
        proof {
            assert forall|j: int| 0 <= j < self.len implies 0 <= #[trigger] slot_word(j)
                < memory_words(self.memory).len() && (j != index ==> slot_word(j) != slot_word(
                index as int,
            )) by {
                lemma_slot_word(self.len as int, j);
                if j != index {
                    lemma_slot_words_differ(j, index as int);
                }
            }
            assert(self@ =~= old(self)@.update(index as int, value));
        }
    }

    /// The address at which the buffer starts, which is that of slot 0: not
    /// null, and a multiple of 2 MiB. Which multiple, the allocator decided
    /// when the buffer was made.
    pub fn start_address(&self) -> (address: usize)
        ensures
            address != 0,
            address % GRANULE == 0,
    {
        proof {
            use_type_invariant(self);
        }
        start_address(&self.memory)
    }
}

/// A machine word has four or eight bytes, so a cache line holds sixteen or
/// eight of them.
proof fn lemma_word_sizes()
    ensures
        word_bytes() == 4 && words_per_slot() == 16 || word_bytes() == 8 && words_per_slot() == 8,
{
    if usize::BITS == 32 {
    } else {
        assert(usize::BITS == 64);
    }
}

/// A slot's first word lies below the words of the slots that follow it.
proof fn lemma_slot_word(len: int, index: int)
    requires
        0 <= index < len,
    ensures
        0 <= slot_word(index) < len * words_per_slot(),
        slot_word(index) == index * words_per_slot(),
{
    lemma_word_sizes();
    let w = words_per_slot();
    assert(0 <= index * w < len * w) by (nonlinear_arith)
        requires
            0 <= index < len,
            w >= 8,
    ;
}

/// Different slots start at different words.
proof fn lemma_slot_words_differ(j: int, k: int)
    requires
        j != k,
    ensures
        slot_word(j) != slot_word(k),
{
    lemma_word_sizes();
    let w = words_per_slot();
    assert(j * w != k * w) by (nonlinear_arith)
        requires
            j != k,
            w >= 8,
    ;
}

/// The rounded size is a whole number of granules and holds a cache line for
/// each slot.
proof fn lemma_rounded_size(slots: int)
    requires
        slots >= 1,
    ensures
        rounded_size(slots) >= slots * CACHELINE,
        rounded_size(slots) > 0,
        rounded_size(slots) % (GRANULE as int) == 0,
        rounded_size(slots) / word_bytes() >= slots * words_per_slot(),
{
    lemma_word_sizes();
    assert(GRANULE == 0x20_0000);
    assert(CACHELINE == 64);
    let bytes = slots * 64;
    let w = words_per_slot();
    if word_bytes() == 8 {
        assert(rounded_size(slots) / 8 >= slots * 8);
    } else {
        assert(rounded_size(slots) / 4 >= slots * 16);
    }
}

impl Buffer for AlignedVec {
    open spec fn successors(&self) -> Seq<usize> {
        self@
    }

    fn slots(&self) -> (n: usize) {
        self.len()
    }

    fn successor(&self, index: usize) -> (next: usize) {
        self.get(index)
    }
}

impl BufferMut for AlignedVec {
    fn set_successor(&mut self, index: usize, value: usize) {
        self.set(index, value);
    }
}

} // verus!
