use pointer_chasing::layout::{pad_slots, Buffer, BufferMut, Padded, Unchecked, CACHELINE};

#[test]
fn cache_line_is_64_bytes() {
    assert_eq!(CACHELINE, 64);
}

#[test]
fn padded_keeps_its_value() {
    let p: Padded<usize, 56> = Padded::from(17);
    assert_eq!(*p, 17);
    assert_eq!(p.value, 17);
    assert_eq!(p.pad, [0u8; 56]);
}

#[test]
fn padded_word_with_56_bytes_fills_a_stride_of_64() {
    assert_eq!(std::mem::size_of::<Padded<u64, 56>>(), 64);
}

#[test]
fn unchecked_reads_the_slot() {
    let v = Unchecked(vec![5usize, 6, 7]);
    assert_eq!(v[0], 5);
    assert_eq!(v[2], 7);
    assert_eq!(v.len(), 3);
}

#[test]
fn pad_slots_keeps_values_and_order() {
    let slots = pad_slots::<56>(&vec![3usize, 1, 2, 0]);
    let values: Vec<usize> = slots.iter().map(|p| p.value).collect();
    assert_eq!(values, vec![3, 1, 2, 0]);
}

#[test]
fn buffers_read_alike() {
    let cycle = vec![3usize, 2, 0, 1];
    let plain = cycle.clone();
    let unchecked = Unchecked(cycle.clone());
    let padded = Unchecked(pad_slots::<56>(&cycle));
    assert_eq!(plain.slots(), 4);
    assert_eq!(unchecked.slots(), 4);
    assert_eq!(padded.slots(), 4);
    for i in 0..4 {
        assert_eq!(plain.successor(i), cycle[i]);
        assert_eq!(unchecked.successor(i), cycle[i]);
        assert_eq!(padded.successor(i), cycle[i]);
    }
}

#[test]
fn set_successor_changes_one_slot() {
    let mut plain = vec![3usize, 2, 0, 1];
    plain.set_successor(1, 9);
    assert_eq!(plain, vec![3, 9, 0, 1]);
    let mut unchecked = Unchecked(vec![3usize, 2, 0, 1]);
    unchecked.set_successor(2, 8);
    assert_eq!(unchecked.0, vec![3, 2, 8, 1]);
    let mut padded = Unchecked(pad_slots::<56>(&vec![3usize, 2, 0, 1]));
    padded.set_successor(0, 7);
    assert_eq!(padded.successor(0), 7);
    assert_eq!(padded.successor(1), 2);
}
