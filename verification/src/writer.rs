use vstd::prelude::*;
use crate::chunk::{
    covers, chunk_in_bounds, chunks_in_bounds, chunks_disjoint, chunk_covering, chunk_byte,
    ChunkModel, ChunkResult,
};
use crate::plan::{plan_windows, n_windows, window_covering, lemma_partition_properties, Window};

verus! {

/// A zero-filled byte sequence of length `n`: the pre-allocated destination
/// before any chunk has landed.
pub open spec fn zero_bytes(n: nat) -> Seq<u8> {
    Seq::new(n, |i: int| 0u8)
}

/// The destination after one positioned write of chunk `c` into `buf`.
pub open spec fn apply_chunk(buf: Seq<u8>, c: ChunkModel) -> Seq<u8> {
    Seq::new(
        buf.len(),
        |p: int|
            if covers(c, p) {
                c.bytes[p - c.offset]
            } else {
                buf[p]
            },
    )
}

/// The destination after the positioned writes of `cs`, in delivery order.
pub open spec fn apply_chunks(buf: Seq<u8>, cs: Seq<ChunkModel>) -> Seq<u8>
    decreases cs.len(),
{
    if cs.len() == 0 {
        buf
    } else {
        apply_chunk(apply_chunks(buf, cs.drop_last()), cs.last())
    }
}

/// Delivering one more chunk after a batch is the same as writing it onto the
/// batch's result.
pub proof fn lemma_apply_chunks_push(buf: Seq<u8>, cs: Seq<ChunkModel>, c: ChunkModel)
    ensures
        apply_chunks(buf, cs.push(c)) == apply_chunk(apply_chunks(buf, cs), c),
    decreases cs.len(),
{
    assert(cs.push(c).drop_last() =~= cs);
    assert(cs.push(c).last() == c);
}

/// When no two chunks overlap, the result of delivering them all is
/// determined pointwise: each position holds the byte of its unique covering
/// chunk, and positions no chunk covers keep their initial byte.
pub proof fn lemma_apply_chunks_pointwise(buf: Seq<u8>, cs: Seq<ChunkModel>)
    requires
        chunks_disjoint(cs),
        chunks_in_bounds(cs, buf.len() as int),
    ensures
        apply_chunks(buf, cs).len() == buf.len(),
        forall|p: int|
            0 <= p < buf.len() && #[trigger] chunk_covering(cs, p) ==> apply_chunks(buf, cs)[p]
                == chunk_byte(cs, p),
        forall|p: int|
            0 <= p < buf.len() && !(#[trigger] chunk_covering(cs, p)) ==> apply_chunks(buf, cs)[p]
                == buf[p],
    decreases cs.len(),
{
    if cs.len() > 0 {
        let cl = cs.last();
        let front = cs.drop_last();
        let mid = apply_chunks(buf, front);
        let li = cs.len() - 1;
        assert(chunk_in_bounds(cs[li], buf.len() as int));
        assert forall|i: int| 0 <= i < front.len() implies chunk_in_bounds(
            #[trigger] front[i],
            buf.len() as int,
        ) by {
            assert(front[i] == cs[i]);
        }
        assert forall|i: int, j: int, p: int|
            #![trigger covers(front[i], p), covers(front[j], p)]
            0 <= i < front.len() && 0 <= j < front.len() && i != j implies !(covers(front[i], p)
            && covers(front[j], p)) by {
            assert(front[i] == cs[i]);
            assert(front[j] == cs[j]);
        }
        lemma_apply_chunks_pointwise(buf, front);
        assert(apply_chunks(buf, cs) == apply_chunk(mid, cl));
        assert forall|p: int| 0 <= p < buf.len() && #[trigger] chunk_covering(cs, p) implies
            apply_chunks(buf, cs)[p] == chunk_byte(cs, p) by {
            let w = choose|i: int| 0 <= i < cs.len() && covers(#[trigger] cs[i], p);
            if covers(cl, p) {
                assert(covers(cs[li], p));
                assert(w == li);
                assert(apply_chunk(mid, cl)[p] == cl.bytes[p - cl.offset]);
                assert(chunk_byte(cs, p) == cl.bytes[p - cl.offset]);
            } else {
                assert(w != li);
                assert(front[w] == cs[w]);
                assert(chunk_covering(front, p));
                let k = choose|i: int| 0 <= i < front.len() && covers(#[trigger] front[i], p);
                assert(front[k] == cs[k]);
                assert(covers(cs[k], p) && covers(cs[w], p));
                assert(k == w);
                assert(apply_chunk(mid, cl)[p] == mid[p]);
                assert(mid[p] == chunk_byte(front, p));
                assert(chunk_byte(front, p) == front[k].bytes[p - front[k].offset]);
                assert(chunk_byte(cs, p) == cs[w].bytes[p - cs[w].offset]);
            }
        }
        assert forall|p: int| 0 <= p < buf.len() && !(#[trigger] chunk_covering(cs, p)) implies
            apply_chunks(buf, cs)[p] == buf[p] by {
            assert(!covers(cs[li], p));
            assert(!chunk_covering(front, p)) by {
                if chunk_covering(front, p) {
                    let k = choose|i: int| 0 <= i < front.len() && covers(#[trigger] front[i], p);
                    assert(front[k] == cs[k]);
                    assert(covers(cs[k], p));
                }
            }
            assert(apply_chunk(mid, cl)[p] == mid[p]);
        }
    }
}

/// THE FAN-IN LAW: delivery order is irrelevant. Two delivery orders that
/// consist of the same chunks (as a multiset) and never overlap produce
/// byte-identical destinations. In particular, any permutation of the window
/// set produces the same file as delivery in index order.
pub proof fn lemma_delivery_order_irrelevant(
    buf: Seq<u8>,
    cs1: Seq<ChunkModel>,
    cs2: Seq<ChunkModel>,
)
    requires
        cs1.to_multiset() == cs2.to_multiset(),
        chunks_disjoint(cs1),
        chunks_in_bounds(cs1, buf.len() as int),
        forall|i: int| 0 <= i < cs1.len() ==> (#[trigger] cs1[i]).bytes.len() > 0,
    ensures
        apply_chunks(buf, cs1) == apply_chunks(buf, cs2),
{
    broadcast use vstd::seq_lib::group_to_multiset_ensures;

    assert(cs1.no_duplicates()) by {
        assert forall|i: int, j: int|
            0 <= i < cs1.len() && 0 <= j < cs1.len() && i != j implies cs1[i] != cs1[j] by {
            if cs1[i] == cs1[j] {
                assert(covers(cs1[i], cs1[i].offset));
                assert(covers(cs1[j], cs1[i].offset));
            }
        }
    }
    cs1.lemma_multiset_has_no_duplicates();
    assert forall|x: ChunkModel| cs2.to_multiset().contains(x) implies cs2.to_multiset().count(x)
        == 1 by {
        assert(cs1.to_multiset().count(x) == cs2.to_multiset().count(x));
    }
    cs2.lemma_multiset_has_no_duplicates_conv();
    assert forall|x: ChunkModel| #[trigger] cs1.contains(x) implies cs2.contains(x) by {
        assert(cs1.to_multiset().count(x) > 0);
    }
    assert forall|x: ChunkModel| #[trigger] cs2.contains(x) implies cs1.contains(x) by {
        assert(cs2.to_multiset().count(x) > 0);
    }
    assert forall|i: int| 0 <= i < cs2.len() implies chunk_in_bounds(
        #[trigger] cs2[i],
        buf.len() as int,
    ) by {
        assert(cs2.contains(cs2[i]));
        let k = choose|k: int| 0 <= k < cs1.len() && cs1[k] == cs2[i];
        assert(chunk_in_bounds(cs1[k], buf.len() as int));
    }
    assert forall|i: int, j: int, p: int|
        #![trigger covers(cs2[i], p), covers(cs2[j], p)]
        0 <= i < cs2.len() && 0 <= j < cs2.len() && i != j implies !(covers(cs2[i], p) && covers(
        cs2[j],
        p,
    )) by {
        if covers(cs2[i], p) && covers(cs2[j], p) {
            assert(cs2[i] != cs2[j]);
            assert(cs2.contains(cs2[i]));
            assert(cs2.contains(cs2[j]));
            let a = choose|k: int| 0 <= k < cs1.len() && cs1[k] == cs2[i];
            let b = choose|k: int| 0 <= k < cs1.len() && cs1[k] == cs2[j];
            assert(a != b);
            assert(covers(cs1[a], p) && covers(cs1[b], p));
        }
    }
    lemma_apply_chunks_pointwise(buf, cs1);
    lemma_apply_chunks_pointwise(buf, cs2);
    assert forall|p: int| 0 <= p < buf.len() implies apply_chunks(buf, cs1)[p] == apply_chunks(
        buf,
        cs2,
    )[p] by {
        if chunk_covering(cs1, p) {
            let i = choose|i: int| 0 <= i < cs1.len() && covers(#[trigger] cs1[i], p);
            assert(cs1.contains(cs1[i]));
            let i2 = choose|k: int| 0 <= k < cs2.len() && cs2[k] == cs1[i];
            assert(covers(cs2[i2], p));
            assert(chunk_covering(cs2, p));
            let j2 = choose|k: int| 0 <= k < cs2.len() && covers(#[trigger] cs2[k], p);
            assert(chunk_byte(cs2, p) == cs2[j2].bytes[p - cs2[j2].offset]);
            assert(cs2.contains(cs2[j2]));
            let j = choose|k: int| 0 <= k < cs1.len() && cs1[k] == cs2[j2];
            assert(covers(cs1[j], p));
            assert(j == i);
            assert(cs2[j2] == cs1[i]);
            assert(chunk_byte(cs1, p) == cs1[i].bytes[p - cs1[i].offset]);
        } else {
            assert(!chunk_covering(cs2, p)) by {
                if chunk_covering(cs2, p) {
                    let k = choose|k: int| 0 <= k < cs2.len() && covers(#[trigger] cs2[k], p);
                    assert(cs2.contains(cs2[k]));
                    let m = choose|m: int| 0 <= m < cs1.len() && cs1[m] == cs2[k];
                    assert(covers(cs1[m], p));
                }
            }
        }
    }
    assert(apply_chunks(buf, cs1) =~= apply_chunks(buf, cs2));
}

/// The chunk that a server honoring the range request returns for window `w`
/// of `resource`.
pub open spec fn window_chunk(resource: Seq<u8>, w: Window) -> ChunkModel {
    ChunkModel { offset: w.start as int, bytes: resource.subrange(w.start as int, w.end + 1) }
}

/// The chunks of `cs` are, window for window, what an honest server returns
/// for the windows of a transfer of `resource` in `chunk`-byte windows.
pub open spec fn full_correct_delivery(resource: Seq<u8>, chunk: int, cs: Seq<ChunkModel>) -> bool {
    &&& cs.len() == n_windows(resource.len() as int, chunk)
    &&& forall|i: int|
        0 <= i < cs.len() ==> #[trigger] cs[i] == window_chunk(
            resource,
            plan_windows(resource.len() as int, chunk)[i],
        )
}

/// THE REASSEMBLY LAW: a complete delivery of the windows of `resource`, in
/// index order, turns any destination of the right size into `resource`
/// itself, byte for byte. Combined with `lemma_delivery_order_irrelevant`
/// this holds in every delivery order, so the parallel path writes exactly
/// the file that the sequential fallback streams.
pub proof fn lemma_full_delivery_reassembles(
    init: Seq<u8>,
    resource: Seq<u8>,
    chunk: int,
    cs: Seq<ChunkModel>,
)
    requires
        0 < resource.len() <= u64::MAX,
        0 < chunk,
        init.len() == resource.len(),
        full_correct_delivery(resource, chunk, cs),
    ensures
        apply_chunks(init, cs) == resource,
{
    let total = resource.len() as int;
    let ws = plan_windows(total, chunk);
    lemma_partition_properties(total, chunk);
    assert forall|i: int| 0 <= i < cs.len() implies chunk_in_bounds(
        #[trigger] cs[i],
        init.len() as int,
    ) by {
        assert(cs[i] == window_chunk(resource, ws[i]));
    }
    assert forall|i: int, j: int, p: int|
        #![trigger covers(cs[i], p), covers(cs[j], p)]
        0 <= i < cs.len() && 0 <= j < cs.len() && i != j implies !(covers(cs[i], p) && covers(
        cs[j],
        p,
    )) by {
        if covers(cs[i], p) && covers(cs[j], p) {
            assert(cs[i] == window_chunk(resource, ws[i]));
            assert(cs[j] == window_chunk(resource, ws[j]));
            assert(ws[i].start <= p <= ws[i].end);
            assert(ws[j].start <= p <= ws[j].end);
        }
    }
    lemma_apply_chunks_pointwise(init, cs);
    assert forall|p: int| 0 <= p < resource.len() implies apply_chunks(init, cs)[p]
        == resource[p] by {
        assert(window_covering(ws, p));
        let i = choose|i: int| 0 <= i < ws.len() && (#[trigger] ws[i]).start <= p <= ws[i].end;
        assert(cs[i] == window_chunk(resource, ws[i]));
        assert(covers(cs[i], p));
        assert(chunk_covering(cs, p));
        let j = choose|j: int| 0 <= j < cs.len() && covers(#[trigger] cs[j], p);
        assert(chunk_byte(cs, p) == cs[j].bytes[p - cs[j].offset]);
        assert(cs[j] == window_chunk(resource, ws[j]));
        assert(cs[j].bytes[p - cs[j].offset] == resource[p]);
    }
    assert(apply_chunks(init, cs) =~= resource);
}


/// The index-order chunk sequence that an honest server returns for a
/// transfer of `resource` in `chunk`-byte windows.
pub open spec fn window_chunks(resource: Seq<u8>, chunk: int) -> Seq<ChunkModel> {
    Seq::new(
        n_windows(resource.len() as int, chunk) as nat,
        |i: int| window_chunk(resource, plan_windows(resource.len() as int, chunk)[i]),
    )
}

/// The window chunks of a resource land inside it, never overlap, and are
/// all non-empty.
pub proof fn lemma_window_chunks_wf(resource: Seq<u8>, chunk: int)
    requires
        0 < resource.len() <= u64::MAX,
        0 < chunk,
    ensures
        ({
            let cs = window_chunks(resource, chunk);
            &&& full_correct_delivery(resource, chunk, cs)
            &&& chunks_disjoint(cs)
            &&& chunks_in_bounds(cs, resource.len() as int)
            &&& forall|i: int| 0 <= i < cs.len() ==> (#[trigger] cs[i]).bytes.len() > 0
        }),
{
    let total = resource.len() as int;
    let ws = plan_windows(total, chunk);
    let cs = window_chunks(resource, chunk);
    lemma_partition_properties(total, chunk);
    assert forall|i: int| 0 <= i < cs.len() implies chunk_in_bounds(#[trigger] cs[i], total)
        && cs[i].bytes.len() > 0 by {
        assert(cs[i] == window_chunk(resource, ws[i]));
    }
    assert forall|i: int, j: int, p: int|
        #![trigger covers(cs[i], p), covers(cs[j], p)]
        0 <= i < cs.len() && 0 <= j < cs.len() && i != j implies !(covers(cs[i], p) && covers(
        cs[j],
        p,
    )) by {
        if covers(cs[i], p) && covers(cs[j], p) {
            assert(cs[i] == window_chunk(resource, ws[i]));
            assert(cs[j] == window_chunk(resource, ws[j]));
            assert(ws[i].start <= p <= ws[i].end);
            assert(ws[j].start <= p <= ws[j].end);
        }
    }
}

/// THE TRANSFER LAW, fan-in and partitioner combined: a delivery that
/// consists of the window chunks of `resource`, in any order whatsoever,
/// turns a destination of the right size into `resource` itself. The
/// sequential fallback streams `resource` unchanged, so both paths produce
/// byte-identical files.
pub proof fn lemma_any_order_reassembles(
    init: Seq<u8>,
    resource: Seq<u8>,
    chunk: int,
    delivered: Seq<ChunkModel>,
)
    requires
        0 < resource.len() <= u64::MAX,
        0 < chunk,
        init.len() == resource.len(),
        delivered.to_multiset() == window_chunks(resource, chunk).to_multiset(),
    ensures
        apply_chunks(init, delivered) == resource,
{
    let cs = window_chunks(resource, chunk);
    lemma_window_chunks_wf(resource, chunk);
    lemma_delivery_order_irrelevant(init, cs, delivered);
    lemma_full_delivery_reassembles(init, resource, chunk, cs);
}

/// Consumes completed chunks, possibly out of order, and performs one
/// positioned write per chunk into a pre-allocated destination buffer;
/// `remaining` counts the chunks still owed and reaching zero is the
/// terminal condition.
pub struct FanInWriter {
    pub buffer: Vec<u8>,
    pub remaining: usize,
    pub delivered: Ghost<Seq<ChunkModel>>,
}

impl FanInWriter {
    /// Every delivered chunk landed inside the destination, and the
    /// destination holds exactly the zero-filled buffer overwritten by the
    /// delivered chunks in delivery order.
    pub open spec fn wf(self) -> bool {
        &&& chunks_in_bounds(self.delivered@, self.buffer@.len() as int)
        &&& self.buffer@ == apply_chunks(zero_bytes(self.buffer@.len()), self.delivered@)
    }

    /// A writer over a fresh zero-filled destination of `total_size` bytes,
    /// owed `chunk_count` chunks.
    pub fn new(total_size: usize, chunk_count: usize) -> (w: FanInWriter)
        ensures
            w.wf(),
            w.buffer@ == zero_bytes(total_size as nat),
            w.remaining == chunk_count,
            w.delivered@ == Seq::<ChunkModel>::empty(),
    {
        let mut buffer: Vec<u8> = Vec::new();
        let mut i: usize = 0;
        while i < total_size
            invariant
                i <= total_size,
                buffer@ =~= zero_bytes(i as nat),
            decreases total_size - i,
        {
            buffer.push(0);
            i += 1;
            proof {
                assert(buffer@ =~= zero_bytes(i as nat));
            }
        }
        proof {
            assert(buffer@ =~= zero_bytes(total_size as nat));
        }
        FanInWriter { buffer, remaining: chunk_count, delivered: Ghost(Seq::empty()) }
    }

    /// One positioned write: seek to `chunk.offset`, write the full byte
    /// sequence there, decrement `remaining`. Requires nothing of delivery
    /// order and touches no byte outside the chunk's own range.
    pub fn deliver(&mut self, chunk: ChunkResult)
        requires
            old(self).wf(),
            old(self).remaining > 0,
            chunk@.offset + chunk@.bytes.len() <= old(self).buffer@.len(),
        ensures
            final(self).wf(),
            final(self).buffer@ == apply_chunk(old(self).buffer@, chunk@),
            final(self).buffer@.len() == old(self).buffer@.len(),
            final(self).delivered@ == old(self).delivered@.push(chunk@),
            final(self).remaining == old(self).remaining - 1,
    {
        let buf_len: usize = self.buffer.len();
        proof {
            assert(chunk.offset <= buf_len);
        }
        let offset: usize = chunk.offset as usize;
        let n: usize = chunk.bytes.len();
        let mut i: usize = 0;
        while i < n
            invariant
                i <= n,
                n == chunk.bytes@.len(),
                offset == chunk@.offset,
                offset + n <= usize::MAX,
                offset + n <= self.buffer@.len(),
                self.buffer@.len() == old(self).buffer@.len(),
                self.remaining == old(self).remaining,
                self.delivered == old(self).delivered,
                forall|p: int|
                    0 <= p < self.buffer@.len() ==> self.buffer@[p] == (if offset <= p < offset
                        + i {
                        chunk.bytes@[p - offset]
                    } else {
                        old(self).buffer@[p]
                    }),
            decreases n - i,
        {
            self.buffer.set(offset + i, chunk.bytes[i]);
            i += 1;
        }
        self.remaining = self.remaining - 1;
        proof {
            self.delivered@ = self.delivered@.push(chunk@);
            assert(self.buffer@ =~= apply_chunk(old(self).buffer@, chunk@));
            lemma_apply_chunks_push(
                zero_bytes(old(self).buffer@.len()),
                old(self).delivered@,
                chunk@,
            );
            assert(self.buffer@ =~= apply_chunks(
                zero_bytes(self.buffer@.len()),
                self.delivered@,
            ));
        }
    }

    /// Whether every owed chunk has been delivered.
    pub fn is_complete(&self) -> (r: bool)
        ensures
            r == (self.remaining == 0),
    {
        self.remaining == 0
    }

    /// Hand the assembled destination out.
    pub fn into_bytes(self) -> (r: Vec<u8>)
        ensures
            r@ == self.buffer@,
    {
        self.buffer
    }
}

} // verus!
