use pointer_chasing::plan::{batch_exp, latency_exp, Experiment, Layout};

fn batched(batch: usize, prefetch: bool, work: usize) -> Experiment {
    Experiment::Batch { batch, prefetch, work }
}

#[test]
fn latency_run_has_five_single_cursor_experiments() {
    assert_eq!(
        latency_exp(),
        vec![
            Experiment::Latency(Layout::Checked),
            Experiment::Latency(Layout::Unchecked),
            Experiment::Latency(Layout::Padded),
            Experiment::Latency(Layout::RawPadded),
            Experiment::Latency(Layout::PaddedAligned),
        ]
    );
}

#[test]
fn batch_run_has_seventeen_experiments() {
    assert_eq!(
        batch_exp(),
        vec![
            batched(1, false, 0),
            batched(2, false, 0),
            batched(4, false, 0),
            batched(8, false, 0),
            batched(10, false, 0),
            batched(11, false, 0),
            batched(12, false, 0),
            batched(13, false, 0),
            batched(16, false, 0),
            batched(32, false, 0),
            batched(16, true, 0),
            batched(16, false, 3),
            batched(16, false, 6),
            batched(16, false, 12),
            batched(16, true, 3),
            batched(16, true, 6),
            batched(16, true, 12),
        ]
    );
}

#[test]
fn experiments_compare_by_their_fields() {
    assert_eq!(batched(2, true, 3), batched(2, true, 3));
    assert_ne!(batched(2, true, 3), batched(2, false, 3));
    assert_ne!(Experiment::Latency(Layout::Raw), Experiment::Latency(Layout::RawPadded));
}

#[test]
fn single_cursor_experiments_are_named_after_their_layout() {
    let names: Vec<String> = latency_exp().iter().map(|e| e.name()).collect();
    assert_eq!(
        names,
        vec![
            "pointer_chasing_checked",
            "pointer_chasing",
            "pointer_chasing_padded",
            "raw_pointer_chasing_padded",
            "pointer_chasing_padded_aligned",
        ]
    );
    assert_eq!(Experiment::Latency(Layout::Raw).name(), "raw_pointer_chasing");
    assert_eq!(
        Experiment::Latency(Layout::RawPaddedAligned).name(),
        "raw_pointer_chasing_padded_aligned"
    );
}

#[test]
fn batch_experiments_are_named_after_their_parts() {
    assert_eq!(batched(1, false, 0).name(), "batch<1>");
    assert_eq!(batched(16, false, 0).name(), "batch<16>");
    assert_eq!(batched(16, true, 0).name(), "batch_prefetch<16>");
    assert_eq!(batched(16, false, 3).name(), "batch_work3<16>");
    assert_eq!(batched(16, true, 12).name(), "batch_prefetch_work12<16>");
    assert_eq!(batched(32, false, 6).name(), "batch_work6<32>");
}

#[test]
fn numbers_in_names_are_decimal() {
    assert_eq!(batched(0, false, 0).name(), "batch<0>");
    assert_eq!(batched(9, false, 10).name(), "batch_work10<9>");
    assert_eq!(batched(1024, true, 907).name(), "batch_prefetch_work907<1024>");
    assert_eq!(
        batched(usize::MAX, false, 0).name(),
        format!("batch<{}>", usize::MAX)
    );
}

#[test]
fn names_of_the_batch_run_differ() {
    let names: Vec<String> = batch_exp().iter().map(|e| e.name()).collect();
    for j in 0..names.len() {
        for k in 0..j {
            assert_ne!(names[j], names[k]);
        }
    }
}
