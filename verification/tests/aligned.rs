use alloc_madvise::Memory;
use pointer_chasing::aligned::{request_bytes, AlignedVec, BufferError, GRANULE};
use pointer_chasing::layout::{Buffer, BufferMut};

#[test]
fn granule_is_two_mebibytes() {
    assert_eq!(GRANULE, 2 * 1024 * 1024);
}

#[test]
fn zeroed_buffer_holds_zeros() {
    let buffer = AlignedVec::zeroed(1000).unwrap();
    assert_eq!(buffer.len(), 1000);
    for i in 0..1000 {
        assert_eq!(buffer.get(i), 0);
    }
}

#[test]
fn from_copies_the_entries() {
    let v: Vec<usize> = (0..5000).map(|i| (i * 7 + 3) % 5000).collect();
    let buffer = AlignedVec::from(&v).unwrap();
    assert_eq!(buffer.len(), 5000);
    for i in 0..5000 {
        assert_eq!(buffer.get(i), v[i]);
    }
}

#[test]
fn set_changes_one_slot_only() {
    let mut buffer = AlignedVec::from(&vec![10usize, 11, 12, 13]).unwrap();
    buffer.set(2, 99);
    assert_eq!(buffer.get(0), 10);
    assert_eq!(buffer.get(1), 11);
    assert_eq!(buffer.get(2), 99);
    assert_eq!(buffer.get(3), 13);
}

#[test]
fn buffer_starts_on_a_granule() {
    let buffer = AlignedVec::zeroed(3).unwrap();
    assert_eq!(buffer.start_address() % GRANULE, 0);
    assert_ne!(buffer.start_address(), 0);
    let large = AlignedVec::zeroed(GRANULE / 64 + 1).unwrap();
    assert_eq!(large.start_address() % GRANULE, 0);
}

#[test]
fn no_slots_are_refused() {
    assert!(matches!(AlignedVec::zeroed(0), Err(BufferError::Empty)));
    assert!(matches!(AlignedVec::from(&Vec::new()), Err(BufferError::Empty)));
}

#[test]
fn too_many_slots_are_refused() {
    assert!(matches!(AlignedVec::zeroed(usize::MAX), Err(BufferError::TooLarge)));
    assert!(matches!(AlignedVec::zeroed(usize::MAX / 64), Err(BufferError::TooLarge)));
}

#[test]
fn refused_allocation_is_reported() {
    let refused = Memory::allocate(0, false, true);
    assert!(refused.is_err());
    assert!(matches!(AlignedVec::from_allocation(refused, 4), Err(BufferError::Allocation)));
}

#[test]
fn granted_allocation_becomes_a_buffer() {
    let granted = Memory::allocate(GRANULE, false, true);
    assert!(granted.is_ok());
    let buffer = AlignedVec::from_allocation(granted, 4).unwrap();
    assert_eq!(buffer.len(), 4);
    assert_eq!(buffer.get(3), 0);
}

#[test]
fn aligned_buffer_reads_like_the_others() {
    let cycle = vec![3usize, 2, 0, 1];
    let mut buffer = AlignedVec::from(&cycle).unwrap();
    assert_eq!(buffer.slots(), 4);
    for i in 0..4 {
        assert_eq!(buffer.successor(i), cycle[i]);
    }
    buffer.set_successor(3, 0);
    assert_eq!(buffer.successor(3), 0);
}

#[test]
fn request_is_a_cache_line_for_each_slot_in_whole_granules() {
    assert_eq!(request_bytes(1), Some(GRANULE));
    assert_eq!(request_bytes(GRANULE / 64), Some(GRANULE));
    assert_eq!(request_bytes(GRANULE / 64 + 1), Some(2 * GRANULE));
    assert_eq!(request_bytes(3 * GRANULE / 64), Some(3 * GRANULE));
    assert_eq!(request_bytes(100_000), Some(4 * GRANULE));
}

#[test]
fn there_is_no_request_for_no_slots_or_too_many() {
    assert_eq!(request_bytes(0), None);
    assert_eq!(request_bytes(usize::MAX), None);
    assert_eq!(request_bytes(usize::MAX / 64 + 1), None);
    // the slots fit, their size rounded up to granules does not
    assert_eq!(request_bytes(usize::MAX / 64), None);
    let last = (usize::MAX - GRANULE + 1) / 64;
    assert_eq!(request_bytes(last), Some(usize::MAX - GRANULE + 1));
    assert_eq!(request_bytes(last + 1), None);
}

#[test]
fn buffer_takes_the_block_that_was_requested() {
    let size = request_bytes(40_000).unwrap();
    let granted = Memory::allocate(size, false, true);
    let buffer = AlignedVec::from_allocation(granted, 40_000).unwrap();
    assert_eq!(buffer.len(), 40_000);
    assert_eq!(buffer.get(39_999), 0);
}
