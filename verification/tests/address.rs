use pointer_chasing::address::Addresses;
use pointer_chasing::aligned::AlignedVec;
use pointer_chasing::layout::{pad_slots, Buffer, Unchecked};

#[test]
fn slots_hold_the_addresses_of_their_targets() {
    let cycle = vec![3usize, 2, 0, 1];
    let a = Addresses::point(vec![0usize; 4], &cycle, 1000, 8).unwrap();
    assert_eq!(a.base(), 1000);
    assert_eq!(a.stride(), 8);
    assert_eq!(*a.store(), vec![1024, 1016, 1000, 1008]);
}

#[test]
fn targets_are_the_cycle() {
    let cycle = vec![3usize, 2, 0, 1];
    let a = Addresses::point(Unchecked(vec![0usize; 4]), &cycle, 4096, 64).unwrap();
    assert_eq!(a.slots(), 4);
    for i in 0..4 {
        assert_eq!(a.successor(i), cycle[i]);
    }
}

#[test]
fn load_reads_the_slot_at_the_address() {
    let cycle = vec![3usize, 2, 0, 1];
    let a = Addresses::point(Unchecked(pad_slots::<56>(&cycle)), &cycle, 640, 64).unwrap();
    assert_eq!(a.first(), 640 + 3 * 64);
    assert_eq!(a.load(640), 640 + 3 * 64);
    assert_eq!(a.load(640 + 3 * 64), 640 + 64);
    assert_eq!(a.load(640 + 64), 640 + 2 * 64);
    assert_eq!(a.load(640 + 2 * 64), 640);
}

#[test]
fn every_address_lies_in_the_buffer() {
    let cycle: Vec<usize> = (0..100).map(|i| (i + 37) % 100).collect();
    let base = 1 << 20;
    let a = Addresses::point(vec![0usize; 100], &cycle, base, 64).unwrap();
    for &address in a.store() {
        assert!(address >= base);
        assert!(address < base + 100 * 64);
        assert_eq!((address - base) % 64, 0);
    }
}

#[test]
fn buffer_beyond_the_last_address_is_refused() {
    let cycle = vec![1usize, 0];
    assert!(Addresses::point(vec![0usize; 2], &cycle, usize::MAX - 15, 8).is_none());
    assert!(Addresses::point(vec![0usize; 2], &cycle, usize::MAX - 16, 8).is_some());
    assert!(Addresses::point(vec![0usize; 2], &cycle, 0, usize::MAX).is_none());
}

#[test]
fn aligned_memory_holds_its_own_addresses() {
    let cycle = vec![2usize, 0, 1];
    let buffer = AlignedVec::zeroed(3).unwrap();
    let base = buffer.start_address();
    let a = Addresses::point(buffer, &cycle, base, 64).unwrap();
    assert_eq!(a.store().get(0), base + 128);
    assert_eq!(a.store().get(1), base);
    assert_eq!(a.store().get(2), base + 64);
    assert_eq!(a.successor(0), 2);
}
