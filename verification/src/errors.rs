use vstd::prelude::*;

verus! {

/// Failures of a transfer, from planning through chunk fetching.
///
/// Any chunk-level failure is fatal to the whole parallel transfer: there is
/// no partial-success mode and no per-chunk retry.
#[derive(Clone, Copy, Debug, PartialEq, Eq, Structural)]
pub enum TransferError {
    /// The resource has zero length: there is nothing to fetch.
    InvalidSize,
    /// The HEAD response carried no usable `Content-Length`, so the parallel
    /// path cannot plan the transfer.
    MissingContentLength,
    /// A ranged fetch returned a status other than 200 or 206.
    UnexpectedStatus(u16),
    /// A network-level fetch error (timeout, reset, DNS failure), or a
    /// response body that cannot be placed inside the destination.
    TransferFailed,
}

/// Failures of the installation step.
#[derive(Clone, Copy, Debug, PartialEq, Eq, Structural)]
pub enum InstallError {
    /// The temp artifact is not a valid compressed stream.
    DecodeError,
    /// The target executable could not be opened for writing.
    TargetBusy,
}

} // verus!
