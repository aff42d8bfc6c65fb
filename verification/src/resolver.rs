use vstd::prelude::*;
use vstd::string::*;

verus! {

/// One of the two mutually exclusive release tracks.
#[derive(Clone, Copy, Debug, PartialEq, Eq, Structural)]
pub enum ReleaseChannel {
    Stable,
    Nightly,
}

/// The release-feed API endpoint of a channel.
pub open spec fn rel_api_url(channel: ReleaseChannel) -> Seq<char> {
    "https://api.github.com/repos/rust-analyzer/rust-analyzer/releases/"@ + (match channel {
        ReleaseChannel::Stable => "latest"@,
        ReleaseChannel::Nightly => "tags/nightly"@,
    })
}

/// The download URL of a channel's artifact, optionally routed through the
/// accelerated mirror.
pub open spec fn dl_url_of(channel: ReleaseChannel, mirror: bool, artifact: Seq<char>) -> Seq<
    char,
> {
    (if mirror {
        "https://github.91chi.fun//"@
    } else {
        ""@
    }) + "https://github.com/rust-analyzer/rust-analyzer/releases/"@ + (match channel {
        ReleaseChannel::Stable => "latest/download/"@,
        ReleaseChannel::Nightly => "download/nightly/"@,
    }) + artifact
}

/// The release-API URL and the artifact download URL of a channel;
/// `artifact` is the platform's artifact file name.
pub fn ra_remote(channel: ReleaseChannel, mirror: bool, artifact: &str) -> (r: (String, String))
    ensures
        r.0@ == rel_api_url(channel),
        r.1@ == dl_url_of(channel, mirror, artifact@),
{
    let api_tag: &str = match channel {
        ReleaseChannel::Stable => "latest",
        ReleaseChannel::Nightly => "tags/nightly",
    };
    let dl_tag: &str = match channel {
        ReleaseChannel::Stable => "latest/download/",
        ReleaseChannel::Nightly => "download/nightly/",
    };
    let rel_api = String::from_str(
        "https://api.github.com/repos/rust-analyzer/rust-analyzer/releases/",
    ).concat(api_tag);
    let mut dl_url = String::from_str(
        if mirror {
            "https://github.91chi.fun//"
        } else {
            ""
        },
    );
    dl_url.append("https://github.com/rust-analyzer/rust-analyzer/releases/");
    dl_url.append(dl_tag);
    dl_url.append(artifact);
    (rel_api, dl_url)
}

/// Whether the installed version is already up to date: the latest release's
/// commitish starts with the installed commitish.
pub fn check_update(latest: &Vec<u8>, current: &Vec<u8>) -> (r: bool)
    ensures
        r == (current@.len() <= latest@.len() && latest@.take(current@.len() as int) == current@),
{
    if current.len() > latest.len() {
        return false;
    }
    let n: usize = current.len();
    let mut i: usize = 0;
    while i < n
        invariant
            i <= n,
            n == current@.len() <= latest@.len(),
            forall|k: int| 0 <= k < i ==> latest@[k] == current@[k],
        decreases n - i,
    {
        if latest[i] != current[i] {
            proof {
                if latest@.take(n as int) == current@ {
                    assert(latest@.take(n as int)[i as int] == current@[i as int]);
                }
            }
            return false;
        }
        i += 1;
    }
    proof {
        assert(latest@.take(n as int) =~= current@);
    }
    true
}

/// The platform artifact file name `rust-analyzer-<arch>-<distributor>.gz`,
/// or nothing for an unsupported platform (no known arch or distributor).
pub fn ra_name(arch: &str, distributor: &str) -> (r: Option<String>)
    ensures
        r is None <==> (arch@.len() == 0 || distributor@.len() == 0),
        r matches Some(s) ==> s@ == "rust-analyzer-"@ + arch@ + "-"@ + distributor@ + ".gz"@,
{
    if arch.is_empty() || distributor.is_empty() {
        None
    } else {
        let mut name = String::from_str("rust-analyzer-");
        name.append(arch);
        name.append("-");
        name.append(distributor);
        name.append(".gz");
        Some(name)
    }
}

/// The installed executable's file name: `rust-analyzer`, with `.exe`
/// appended on Windows.
pub fn ra_exec(windows: bool) -> (r: String)
    ensures
        r@ == "rust-analyzer"@ + (if windows {
            ".exe"@
        } else {
            ""@
        }),
{
    let mut name = String::from_str("rust-analyzer");
    if windows {
        name.append(".exe");
    }
    proof {
        if !windows {
            reveal_strlit("");
            assert(name@ =~= "rust-analyzer"@ + ""@);
        }
    }
    name
}

} // verus!
