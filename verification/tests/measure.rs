use pointer_chasing::measure::{alignment, elapsed_ns, Measurement};
use std::cell::Cell;

#[test]
fn alignment_counts_the_factors_of_two() {
    assert_eq!(alignment(1), 0);
    assert_eq!(alignment(2), 1);
    assert_eq!(alignment(12), 2);
    assert_eq!(alignment(64), 6);
    assert_eq!(alignment(2 * 1024 * 1024), 21);
    assert_eq!(alignment(3 << 40), 40);
    assert_eq!(alignment(usize::MAX), 0);
    assert_eq!(alignment(1 << (usize::BITS - 1)), (usize::BITS - 1) as usize);
}

#[test]
fn alignment_of_zero_is_the_width_of_an_address() {
    assert_eq!(alignment(0), usize::BITS as usize);
    assert_eq!(alignment(0), 0usize.trailing_zeros() as usize);
}

#[test]
fn alignment_agrees_with_trailing_zeros() {
    for address in 1..5000usize {
        assert_eq!(alignment(address), address.trailing_zeros() as usize);
    }
}

#[test]
fn record_starts_without_name_as_run_zero() {
    let m = Measurement::from_timing(1 << 20, 10_000_000, 16, 3 << 21, 123_456_789, None);
    assert_eq!(m.name, "");
    assert_eq!(m.run, 0);
    assert_eq!(m.size, 1 << 20);
    assert_eq!(m.steps, 10_000_000);
    assert_eq!(m.batch, 16);
    assert_eq!(m.duration_ns, 123_456_789);
    assert_eq!(m.freq, None);
    assert_eq!(m.alignment, 21);
}

#[test]
fn latency_is_duration_over_steps() {
    let m = Measurement::from_timing(64, 10_000_000, 1, 64, 123_456_789, None);
    // 123456789 ns / 10^7 hops = 12.3456789 ns
    assert_eq!(m.latency_ps(), Some(12_345));
    let exact = Measurement::from_timing(64, 4, 1, 64, 10, None);
    assert_eq!(exact.latency_ps(), Some(2_500));
    let long = Measurement::from_timing(64, 1, 1, 64, u64::MAX, None);
    assert_eq!(long.latency_ps(), Some(u64::MAX as u128 * 1000));
}

#[test]
fn latency_needs_a_hop() {
    let m = Measurement::from_timing(64, 0, 1, 64, 10, Some(1));
    assert_eq!(m.latency_ps(), None);
    assert_eq!(m.cycles_milli(), None);
}

#[test]
fn cycles_are_latency_times_frequency() {
    // 12.3456789 ns at 3 GHz are 37.0370367 cycles
    let m = Measurement::from_timing(64, 10_000_000, 1, 64, 123_456_789, Some(3_000_000_000));
    assert_eq!(m.cycles_milli(), Some(37_037));
    let one = Measurement::from_timing(64, 1000, 1, 64, 1000, Some(1_000_000_000));
    assert_eq!(one.cycles_milli(), Some(1000));
    let wide = Measurement::from_timing(64, 1, 1, 64, u64::MAX, Some(u64::MAX));
    assert_eq!(wide.cycles_milli(), Some(u64::MAX as u128 * u64::MAX as u128 / 1_000_000));
}

#[test]
fn cycles_are_absent_without_a_frequency() {
    let m = Measurement::from_timing(64, 10_000_000, 1, 64, 123_456_789, None);
    assert_eq!(m.freq, None);
    assert_eq!(m.cycles_milli(), None);
    assert_eq!(m.latency_ps(), Some(12_345));
}

#[test]
fn measuring_runs_the_body_once_between_two_readings() {
    let now = Cell::new(1000u64);
    let log = std::cell::RefCell::new(Vec::new());
    let m = Measurement::new(
        4096,
        50,
        2,
        128,
        || {
            log.borrow_mut().push("body");
            now.set(now.get() + 700);
        },
        || {
            log.borrow_mut().push("clock");
            now.get()
        },
        || {
            log.borrow_mut().push("frequency");
            Some(2_400_000_000)
        },
    );
    assert_eq!(*log.borrow(), vec!["clock", "body", "clock", "frequency"]);
    assert_eq!(m.duration_ns, 700);
    assert_eq!(m.freq, Some(2_400_000_000));
    assert_eq!(m.size, 4096);
    assert_eq!(m.steps, 50);
    assert_eq!(m.batch, 2);
    assert_eq!(m.alignment, 7);
    assert_eq!(m.name, "");
    assert_eq!(m.run, 0);
    assert_eq!(m.latency_ps(), Some(14_000));
    assert_eq!(m.cycles_milli(), Some(33_600));
}

#[test]
fn unknown_frequency_leaves_the_latency_valid() {
    let now = Cell::new(0u64);
    let m = Measurement::new(64, 10, 1, 64, || now.set(55), || now.get(), || None);
    assert_eq!(m.freq, None);
    assert_eq!(m.cycles_milli(), None);
    assert_eq!(m.duration_ns, 55);
    assert_eq!(m.latency_ps(), Some(5_500));
}

#[test]
fn clock_that_runs_backwards_gives_no_time() {
    let now = Cell::new(500u64);
    let m = Measurement::new(64, 10, 1, 64, || now.set(100), || now.get(), || None);
    assert_eq!(m.duration_ns, 0);
}

#[test]
fn elapsed_time_is_the_difference_of_the_readings() {
    assert_eq!(elapsed_ns(1000, 1700), 700);
    assert_eq!(elapsed_ns(0, u64::MAX), u64::MAX);
    assert_eq!(elapsed_ns(5, 5), 0);
    assert_eq!(elapsed_ns(500, 100), 0);
    assert_eq!(elapsed_ns(u64::MAX, 0), 0);
}
