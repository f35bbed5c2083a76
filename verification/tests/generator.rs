use pointer_chasing::generator::{derangement, derangement_with_order, DerangementCache};

fn is_full_cycle(cycle: &Vec<usize>) -> bool {
    let n = cycle.len();
    let mut i = 0usize;
    for hop in 1..=n {
        i = cycle[i];
        if i == 0 {
            return hop == n;
        }
    }
    false
}

#[test]
fn one_mebibyte_of_words_is_one_cycle_of_131072() {
    let mut cache = DerangementCache::new();
    let (cycle, order) = derangement_with_order(&mut cache, 1 << 20, 8);
    assert_eq!(cycle.len(), 131072);
    assert_eq!(order.len(), 131072);
    assert!(is_full_cycle(&cycle));
}

#[test]
fn order_lists_every_index_once() {
    let mut cache = DerangementCache::new();
    let (_, order) = derangement_with_order(&mut cache, 64 * 1000, 64);
    assert_eq!(order.len(), 1000);
    let mut seen = vec![0usize; 1000];
    for &i in &order {
        assert!(i < 1000);
        seen[i] += 1;
    }
    assert!(seen.iter().all(|&count| count == 1));
}

#[test]
fn cycle_follows_order() {
    let mut cache = DerangementCache::new();
    let (cycle, order) = derangement_with_order(&mut cache, 640, 64);
    let n = order.len();
    assert_eq!(n, 10);
    for k in 0..n {
        assert_eq!(cycle[order[k]], order[(k + 1) % n]);
    }
}

#[test]
fn order_is_shuffled() {
    let mut cache = DerangementCache::new();
    let (_, order) = derangement_with_order(&mut cache, 8 * 1000, 8);
    let identity: Vec<usize> = (0..1000).collect();
    assert_ne!(order, identity);
}

#[test]
fn same_count_gives_the_same_pair() {
    let mut cache = DerangementCache::new();
    let first = derangement_with_order(&mut cache, 1 << 16, 64);
    let second = derangement_with_order(&mut cache, 1 << 16, 64);
    assert_eq!(first, second);
    // 2^13 bytes of 8-byte slots are 1024 slots as well.
    let third = derangement_with_order(&mut cache, 1 << 13, 8);
    assert_eq!(first, third);
}

#[test]
fn derangement_is_the_cycle_of_the_pair() {
    let mut cache = DerangementCache::new();
    let cycle = derangement(&mut cache, 4096, 8);
    let (again, _) = derangement_with_order(&mut cache, 4096, 8);
    assert_eq!(cycle, again);
    assert_eq!(cycle.len(), 512);
}

#[test]
fn size_is_rounded_down_to_whole_slots() {
    let mut cache = DerangementCache::new();
    let cycle = derangement(&mut cache, 200, 64);
    assert_eq!(cycle.len(), 3);
    assert!(is_full_cycle(&cycle));
}

#[test]
fn one_slot_is_a_self_loop() {
    let mut cache = DerangementCache::new();
    let (cycle, order) = derangement_with_order(&mut cache, 64, 64);
    assert_eq!(cycle, vec![0]);
    assert_eq!(order, vec![0]);
}
