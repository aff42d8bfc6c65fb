use ra_updater::errors::InstallError;
use ra_updater::install::ra_extract;
use ra_updater::orchestrator::Orchestrator;
use ra_updater::plan::Window;
use ra_updater::chunk::FetchOutcome;

fn gzip_bytes(data: &[u8]) -> Vec<u8> {
    let mut encoder = flate2::bufread::GzEncoder::new(data, flate2::Compression::default());
    let mut out: Vec<u8> = Vec::new();
    std::io::Read::read_to_end(&mut encoder, &mut out).unwrap();
    out
}

#[test]
fn decompression_reproduces_original_bytes() {
    let data: Vec<u8> = (0u8..=255).cycle().take(10_000).collect();
    let compressed = gzip_bytes(&data);
    assert_ne!(compressed, data);
    let extracted = ra_extract(&compressed).unwrap();
    assert_eq!(extracted, data);
}

#[test]
fn empty_payload_roundtrip() {
    let compressed = gzip_bytes(&[]);
    assert_eq!(ra_extract(&compressed).unwrap(), Vec::<u8>::new());
}

#[test]
fn invalid_stream_rejected_with_decode_error() {
    let garbage: Vec<u8> = b"this is not a gzip stream at all".to_vec();
    assert_eq!(ra_extract(&garbage).unwrap_err(), InstallError::DecodeError);
}

#[test]
fn truncated_stream_rejected_with_decode_error() {
    let data: Vec<u8> = (0u8..200).collect();
    let mut compressed = gzip_bytes(&data);
    compressed.truncate(compressed.len() / 2);
    assert_eq!(ra_extract(&compressed).unwrap_err(), InstallError::DecodeError);
}

#[test]
fn parallel_assembled_artifact_decompresses_to_original() {
    let data: Vec<u8> = (0u8..=255).cycle().take(50_000).collect();
    let compressed = gzip_bytes(&data);
    let total = compressed.len() as u64;

    let mut orch = Orchestrator::start(Some(total), 1000).unwrap();
    let windows: Vec<Window> = orch.windows().clone();
    orch.dispatched();
    // Deliver every window chunk, odd-indexed windows first.
    for phase in 0..2 {
        for (i, w) in windows.iter().enumerate() {
            if i % 2 == (1 - phase) {
                let body = compressed[w.start as usize..=w.end as usize].to_vec();
                let r = orch.on_fetch(FetchOutcome::Received { status: 206, offset: w.start, body });
                assert!(r.is_ok());
            }
        }
    }
    assert!(orch.should_install());
    let artifact = orch.take_artifact();
    assert_eq!(artifact, compressed);
    assert_eq!(ra_extract(&artifact).unwrap(), data);
}
