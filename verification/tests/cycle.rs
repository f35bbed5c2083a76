use pointer_chasing::cycle::cycle_from_order;

fn walk(cycle: &Vec<usize>, start: usize, hops: usize) -> usize {
    let mut i = start;
    for _ in 0..hops {
        i = cycle[i];
    }
    i
}

#[test]
fn cycle_of_four_follows_its_order() {
    let order = vec![2usize, 0, 3, 1];
    let cycle = cycle_from_order(&order);
    assert_eq!(cycle[2], 0);
    assert_eq!(cycle[0], 3);
    assert_eq!(cycle[3], 1);
    assert_eq!(cycle[1], 2);
    assert_eq!(cycle, vec![3, 2, 0, 1]);
}

#[test]
fn cycle_of_four_returns_after_four_hops_only() {
    let cycle = cycle_from_order(&vec![2usize, 0, 3, 1]);
    assert_eq!(walk(&cycle, 2, 4), 2);
    assert_ne!(walk(&cycle, 2, 1), 2);
    assert_ne!(walk(&cycle, 2, 2), 2);
    assert_ne!(walk(&cycle, 2, 3), 2);
}

#[test]
fn single_slot_points_at_itself() {
    let cycle = cycle_from_order(&vec![0usize]);
    assert_eq!(cycle, vec![0]);
}

#[test]
fn two_slots_point_at_each_other() {
    assert_eq!(cycle_from_order(&vec![1usize, 0]), vec![1, 0]);
    assert_eq!(cycle_from_order(&vec![0usize, 1]), vec![1, 0]);
}

#[test]
fn every_start_returns_after_all_hops_and_not_before() {
    let order = vec![4usize, 1, 6, 0, 3, 5, 2];
    let cycle = cycle_from_order(&order);
    let n = order.len();
    for start in 0..n {
        assert_eq!(walk(&cycle, start, n), start);
        for k in 1..n {
            assert_ne!(walk(&cycle, start, k), start);
        }
    }
}

#[test]
fn walk_visits_slots_in_the_given_order() {
    let order = vec![4usize, 1, 6, 0, 3, 5, 2];
    let cycle = cycle_from_order(&order);
    for k in 0..order.len() {
        assert_eq!(walk(&cycle, order[0], k), order[k]);
    }
}
