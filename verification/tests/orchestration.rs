use ra_updater::chunk::FetchOutcome;
use ra_updater::errors::TransferError;
use ra_updater::orchestrator::Orchestrator;
use ra_updater::plan::Window;

fn received(resource: &[u8], w: &Window, status: u16) -> FetchOutcome {
    FetchOutcome::Received {
        status,
        offset: w.start,
        body: resource[w.start as usize..=w.end as usize].to_vec(),
    }
}

#[test]
fn missing_content_length_rejected_before_dispatch() {
    let r = Orchestrator::start(None, 512_000);
    assert_eq!(r.err().unwrap(), TransferError::MissingContentLength);
}

#[test]
fn zero_content_length_rejected() {
    let r = Orchestrator::start(Some(0), 512_000);
    assert_eq!(r.err().unwrap(), TransferError::InvalidSize);
}

#[test]
fn full_transfer_out_of_order_produces_resource() {
    let resource: Vec<u8> = (0u8..=255).cycle().take(30).collect();
    let mut orch = Orchestrator::start(Some(30), 10).unwrap();
    let windows: Vec<Window> = orch.windows().clone();
    assert_eq!(windows.len(), 3);
    orch.dispatched();
    // Chunks complete in arbitrary order: 2, 0, 1.
    for i in [2usize, 0, 1] {
        let r = orch.on_fetch(received(&resource, &windows[i], 206));
        assert!(r.is_ok());
    }
    assert!(orch.should_install());
    assert!(orch.cleanup_due());
    // The parallel path wrote exactly the bytes the sequential fallback
    // would have streamed.
    assert_eq!(orch.take_artifact(), resource);
}

#[test]
fn status_200_treated_as_success() {
    let resource: Vec<u8> = vec![42; 8];
    let mut orch = Orchestrator::start(Some(8), 16).unwrap();
    let windows: Vec<Window> = orch.windows().clone();
    assert_eq!(windows.len(), 1);
    orch.dispatched();
    assert!(orch.on_fetch(received(&resource, &windows[0], 200)).is_ok());
    assert!(orch.should_install());
    assert_eq!(orch.take_artifact(), resource);
}

#[test]
fn chunk_404_aborts_whole_transfer() {
    let resource: Vec<u8> = (0u8..30).collect();
    let mut orch = Orchestrator::start(Some(30), 10).unwrap();
    let windows: Vec<Window> = orch.windows().clone();
    assert_eq!(windows.len(), 3);
    orch.dispatched();
    assert!(orch.on_fetch(received(&resource, &windows[0], 206)).is_ok());
    // Chunk 2 of 3 comes back 404: the transfer aborts with its status.
    let r = orch.on_fetch(received(&resource, &windows[1], 404));
    assert_eq!(r.unwrap_err(), TransferError::UnexpectedStatus(404));
    // The destination is never handed to the installer, and the temp
    // artifact is due for removal.
    assert!(!orch.should_install());
    assert!(orch.cleanup_due());
}

#[test]
fn network_error_aborts_whole_transfer() {
    let resource: Vec<u8> = (0u8..30).collect();
    let mut orch = Orchestrator::start(Some(30), 10).unwrap();
    let windows: Vec<Window> = orch.windows().clone();
    orch.dispatched();
    assert!(orch.on_fetch(received(&resource, &windows[2], 206)).is_ok());
    let r = orch.on_fetch(FetchOutcome::NetworkError);
    assert_eq!(r.unwrap_err(), TransferError::TransferFailed);
    assert!(!orch.should_install());
    assert!(orch.cleanup_due());
}

#[test]
fn oversized_body_aborts_transfer() {
    let mut orch = Orchestrator::start(Some(10), 4).unwrap();
    orch.dispatched();
    let r = orch.on_fetch(FetchOutcome::Received { status: 206, offset: 8, body: vec![1; 5] });
    assert_eq!(r.unwrap_err(), TransferError::TransferFailed);
    assert!(!orch.should_install());
}
