use ra_updater::chunk::ChunkResult;
use ra_updater::plan::partition;
use ra_updater::writer::FanInWriter;

fn chunk_of(resource: &[u8], start: u64, end: u64) -> ChunkResult {
    ChunkResult { offset: start, bytes: resource[start as usize..=end as usize].to_vec() }
}

#[test]
fn delivery_in_index_order_reassembles() {
    let resource: Vec<u8> = (0u8..50).collect();
    let plan = partition(50, 16).unwrap();
    let mut writer = FanInWriter::new(50, plan.windows.len());
    for w in plan.windows.iter() {
        writer.deliver(chunk_of(&resource, w.start, w.end));
    }
    assert!(writer.is_complete());
    assert_eq!(writer.into_bytes(), resource);
}

#[test]
fn out_of_order_delivery_matches_index_order() {
    let resource: Vec<u8> = (0u8..=255).cycle().take(1000).collect();
    let plan = partition(1000, 128).unwrap();
    let n = plan.windows.len();

    let mut in_order = FanInWriter::new(1000, n);
    for w in plan.windows.iter() {
        in_order.deliver(chunk_of(&resource, w.start, w.end));
    }

    // A permutation of the same window set: last first, then the rest.
    let mut permuted = FanInWriter::new(1000, n);
    for i in (0..n).rev() {
        let w = &plan.windows[i];
        permuted.deliver(chunk_of(&resource, w.start, w.end));
    }

    let a = in_order.into_bytes();
    let b = permuted.into_bytes();
    assert_eq!(a, b);
    assert_eq!(a, resource);
}

#[test]
fn remaining_counts_down_to_completion() {
    let resource: Vec<u8> = vec![7; 30];
    let plan = partition(30, 10).unwrap();
    let mut writer = FanInWriter::new(30, plan.windows.len());
    assert!(!writer.is_complete());
    writer.deliver(chunk_of(&resource, 10, 19));
    assert!(!writer.is_complete());
    writer.deliver(chunk_of(&resource, 0, 9));
    assert!(!writer.is_complete());
    writer.deliver(chunk_of(&resource, 20, 29));
    assert!(writer.is_complete());
}
