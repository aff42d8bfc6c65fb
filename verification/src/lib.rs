//! Keeps a locally installed rust-analyzer binary in sync with its remote
//! release feed. The core is the parallel range-based download engine: the
//! partitioner turns a resource size into fixed-width byte windows, one
//! concurrent ranged fetch per window delivers its chunk to the fan-in
//! writer, the orchestrator supervises completion and aborts the whole
//! transfer on the first failure, and the installer decompresses the
//! completed artifact. The partitioning, reassembly, supervision and
//! decoding rules live here with their contracts; the surrounding I/O
//! (HTTP, files, the CLI) stays outside the library and hands in plain
//! values.

use vstd::prelude::*;

pub mod errors;
pub mod plan;
pub mod chunk;
pub mod writer;
pub mod orchestrator;
pub mod install;
pub mod resolver;

verus! {

/// Default width of one download window, in bytes.
pub const PAR_DL_BUF_SIZE: u64 = 512 * 1024;

} // verus!
