use vstd::prelude::*;
use crate::errors::InstallError;
use crate::chunk::ChunkModel;
use crate::writer::{apply_chunks, window_chunks, lemma_any_order_reassembles};

verus! {

/// What streaming gzip decompression returns for a byte sequence: the
/// decompressed bytes, or nothing when the sequence is not a validly
/// compressed stream. Decompression is a function of the input bytes alone.
pub uninterp spec fn gunzip_of(b: Seq<u8>) -> Option<Seq<u8>>;

/// Relies on flate2::bufread::GzDecoder, driven to the end of the stream by
/// std::io::Read::read_to_end: decoding succeeds exactly on validly
/// compressed input, and the result depends on the input bytes alone.
#[verifier::external_body]
fn gunzip(compressed: &Vec<u8>) -> (r: Option<Vec<u8>>)
    ensures
        r is Some <==> gunzip_of(compressed@) is Some,
        r matches Some(v) ==> Some(v@) == gunzip_of(compressed@),
{
    let mut decoder = flate2::bufread::GzDecoder::new(compressed.as_slice());
    let mut out: Vec<u8> = Vec::new();
    match std::io::Read::read_to_end(&mut decoder, &mut out) {
        Ok(_) => Some(out),
        Err(_) => None,
    }
}

/// Apply streaming decompression to the completed temp artifact, yielding
/// the bytes of the executable to install. Fails with `DecodeError` exactly
/// when the artifact is not a valid compressed stream.
pub fn ra_extract(compressed: &Vec<u8>) -> (r: Result<Vec<u8>, InstallError>)
    ensures
        gunzip_of(compressed@) matches Some(d) ==> r matches Ok(v) && v@ == d,
        gunzip_of(compressed@) is None <==> r == Err::<Vec<u8>, InstallError>(
            InstallError::DecodeError,
        ),
{
    match gunzip(compressed) {
        Some(v) => Ok(v),
        None => Err(InstallError::DecodeError),
    }
}

/// THE ROUND-TRIP LAW: an artifact assembled from the window chunks of the
/// compressed resource, delivered in any order, decompresses to exactly what
/// the resource itself decompresses to — the original uncompressed bytes.
/// Re-compressing those bytes is not claimed to reproduce the artifact: the
/// codec is not canonical, so only the decode direction is stated.
pub proof fn lemma_parallel_artifact_decodes(
    init: Seq<u8>,
    resource: Seq<u8>,
    chunk: int,
    delivered: Seq<ChunkModel>,
)
    requires
        0 < resource.len() <= u64::MAX,
        0 < chunk,
        init.len() == resource.len(),
        delivered.to_multiset() == window_chunks(resource, chunk).to_multiset(),
    ensures
        gunzip_of(apply_chunks(init, delivered)) == gunzip_of(resource),
{
    lemma_any_order_reassembles(init, resource, chunk, delivered);
}

} // verus!
