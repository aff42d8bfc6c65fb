use vstd::prelude::*;

verus! {

/// The bytes of one completed ranged fetch, tagged with the absolute byte
/// offset at which they belong in the destination file.
#[derive(Debug)]
pub struct ChunkResult {
    pub offset: u64,
    pub bytes: Vec<u8>,
}

/// Ghost image of a chunk: an offset and the byte sequence placed there.
#[verifier::ext_equal]
pub struct ChunkModel {
    pub offset: int,
    pub bytes: Seq<u8>,
}

impl View for ChunkResult {
    type V = ChunkModel;

    open spec fn view(&self) -> ChunkModel {
        ChunkModel { offset: self.offset as int, bytes: self.bytes@ }
    }
}

/// Chunk `c` supplies the byte at position `p`.
pub open spec fn covers(c: ChunkModel, p: int) -> bool {
    c.offset <= p < c.offset + c.bytes.len()
}

/// Chunk `c` lies entirely inside a destination of `n` bytes.
pub open spec fn chunk_in_bounds(c: ChunkModel, n: int) -> bool {
    0 <= c.offset && c.offset + c.bytes.len() <= n
}

/// Every chunk of `cs` lies inside a destination of `n` bytes.
pub open spec fn chunks_in_bounds(cs: Seq<ChunkModel>, n: int) -> bool {
    forall|i: int| 0 <= i < cs.len() ==> chunk_in_bounds(#[trigger] cs[i], n)
}

/// No byte position is supplied by two distinct chunks of `cs`.
pub open spec fn chunks_disjoint(cs: Seq<ChunkModel>) -> bool {
    forall|i: int, j: int, p: int|
        #![trigger covers(cs[i], p), covers(cs[j], p)]
        0 <= i < cs.len() && 0 <= j < cs.len() && i != j ==> !(covers(cs[i], p) && covers(
            cs[j],
            p,
        ))
}

/// Some chunk of `cs` supplies position `p`.
pub open spec fn chunk_covering(cs: Seq<ChunkModel>, p: int) -> bool {
    exists|i: int| 0 <= i < cs.len() && covers(#[trigger] cs[i], p)
}

/// The byte that the (unique, when `cs` is disjoint) covering chunk of `cs`
/// supplies at position `p`.
pub open spec fn chunk_byte(cs: Seq<ChunkModel>, p: int) -> u8 {
    let i = choose|i: int| 0 <= i < cs.len() && covers(#[trigger] cs[i], p);
    cs[i].bytes[p - cs[i].offset]
}

/// A ranged GET succeeds only with HTTP status 200 (full content, range
/// ignored) or 206 (partial content honoring the range).
pub fn status_accepted(status: u16) -> (r: bool)
    ensures
        r == (status == 200 || status == 206),
{
    status == 200 || status == 206
}

/// What one fetch task reports back: a response with its status and body,
/// tagged with the start offset of its window, or a network-level failure
/// (timeout, connection reset, DNS failure).
#[derive(Debug)]
pub enum FetchOutcome {
    Received { status: u16, offset: u64, body: Vec<u8> },
    NetworkError,
}

} // verus!
