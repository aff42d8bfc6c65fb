use ra_updater::resolver::{check_update, ra_exec, ra_name, ra_remote, ReleaseChannel};

#[test]
fn stable_urls() {
    let (api, dl) = ra_remote(ReleaseChannel::Stable, false, "rust-analyzer-x86_64-unknown-linux-gnu.gz");
    assert_eq!(api, "https://api.github.com/repos/rust-analyzer/rust-analyzer/releases/latest");
    assert_eq!(
        dl,
        "https://github.com/rust-analyzer/rust-analyzer/releases/latest/download/rust-analyzer-x86_64-unknown-linux-gnu.gz"
    );
}

#[test]
fn nightly_urls() {
    let (api, dl) = ra_remote(ReleaseChannel::Nightly, false, "rust-analyzer-aarch64-apple-darwin.gz");
    assert_eq!(
        api,
        "https://api.github.com/repos/rust-analyzer/rust-analyzer/releases/tags/nightly"
    );
    assert_eq!(
        dl,
        "https://github.com/rust-analyzer/rust-analyzer/releases/download/nightly/rust-analyzer-aarch64-apple-darwin.gz"
    );
}

#[test]
fn mirror_prefixes_download_url_only() {
    let (api, dl) = ra_remote(ReleaseChannel::Stable, true, "rust-analyzer-x86_64-pc-windows-msvc.gz");
    assert_eq!(api, "https://api.github.com/repos/rust-analyzer/rust-analyzer/releases/latest");
    assert_eq!(
        dl,
        "https://github.91chi.fun//https://github.com/rust-analyzer/rust-analyzer/releases/latest/download/rust-analyzer-x86_64-pc-windows-msvc.gz"
    );
}

#[test]
fn up_to_date_when_latest_starts_with_current() {
    let latest = b"1abcdef0123456789".to_vec();
    let current = b"1abcdef".to_vec();
    assert!(check_update(&latest, &current));
}

#[test]
fn update_available_when_commitish_differs() {
    let latest = b"9fedcba".to_vec();
    let current = b"1abcdef".to_vec();
    assert!(!check_update(&latest, &current));
}

#[test]
fn equal_commitish_is_up_to_date() {
    let latest = b"abc123".to_vec();
    let current = b"abc123".to_vec();
    assert!(check_update(&latest, &current));
}

#[test]
fn longer_current_is_not_a_prefix() {
    let latest = b"abc".to_vec();
    let current = b"abc123".to_vec();
    assert!(!check_update(&latest, &current));
}

#[test]
fn artifact_name_for_known_platform() {
    let name = ra_name("x86_64", "unknown-linux-gnu").unwrap();
    assert_eq!(name, "rust-analyzer-x86_64-unknown-linux-gnu.gz");
}

#[test]
fn artifact_name_unsupported_platform() {
    assert!(ra_name("", "unknown-linux-gnu").is_none());
    assert!(ra_name("x86_64", "").is_none());
}

#[test]
fn executable_name_per_platform() {
    assert_eq!(ra_exec(false), "rust-analyzer");
    assert_eq!(ra_exec(true), "rust-analyzer.exe");
}
