use ra_updater::errors::TransferError;
use ra_updater::plan::{partition, PartialRangeIter, Window};

#[test]
fn three_windows_scenario() {
    let plan = partition(1_500_000, 512_000).unwrap();
    assert_eq!(plan.total_size, 1_500_000);
    assert_eq!(plan.chunk_size, 512_000);
    assert_eq!(plan.windows.len(), 3);
    assert_eq!(plan.windows[0], Window { start: 0, end: 511_999 });
    assert_eq!(plan.windows[1], Window { start: 512_000, end: 1_023_999 });
    assert_eq!(plan.windows[2], Window { start: 1_024_000, end: 1_499_999 });
}

#[test]
fn single_window_when_total_smaller_than_chunk() {
    let plan = partition(100, 512_000).unwrap();
    assert_eq!(plan.windows.len(), 1);
    assert_eq!(plan.windows[0], Window { start: 0, end: 99 });
}

#[test]
fn exact_multiple_of_chunk_width() {
    let plan = partition(1024, 512).unwrap();
    assert_eq!(plan.windows.len(), 2);
    assert_eq!(plan.windows[0], Window { start: 0, end: 511 });
    assert_eq!(plan.windows[1], Window { start: 512, end: 1023 });
}

#[test]
fn zero_total_size_rejected() {
    assert_eq!(partition(0, 512_000).unwrap_err(), TransferError::InvalidSize);
}

#[test]
fn windows_cover_total_without_gaps() {
    let plan = partition(1_000_003, 4096).unwrap();
    let mut expected_start: u64 = 0;
    for w in plan.windows.iter() {
        assert_eq!(w.start, expected_start);
        assert!(w.end >= w.start);
        expected_start = w.end + 1;
    }
    assert_eq!(expected_start, 1_000_003);
    let sum: u64 = plan.windows.iter().map(|w| w.end - w.start + 1).sum();
    assert_eq!(sum, 1_000_003);
}

#[test]
fn partial_range_iter_steps_through_windows() {
    let mut it = PartialRangeIter::new(0, 999);
    assert_eq!(it.next(400), Some(Window { start: 0, end: 399 }));
    assert_eq!(it.next(400), Some(Window { start: 400, end: 799 }));
    assert_eq!(it.next(400), Some(Window { start: 800, end: 999 }));
    assert_eq!(it.next(400), None);
}
