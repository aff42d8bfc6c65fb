use vstd::prelude::*;
use vstd::arithmetic::div_mod::{lemma_fundamental_div_mod, lemma_remainder};
use crate::errors::TransferError;

verus! {

/// One contiguous byte range `[start, end]` (inclusive) assigned to one fetch
/// task.
#[derive(Clone, Copy, Debug, PartialEq, Eq, Structural)]
pub struct Window {
    pub start: u64,
    pub end: u64,
}

/// Length in bytes of one window.
pub open spec fn window_len(w: Window) -> int {
    w.end - w.start + 1
}

/// How many fixed-width windows cover `total` bytes: `ceil(total / chunk)`.
pub open spec fn n_windows(total: int, chunk: int) -> int
    recommends
        total > 0,
        chunk > 0,
{
    (total - 1) / chunk + 1
}

/// The `i`-th window: `(i*chunk, min((i+1)*chunk - 1, total - 1))`.
pub open spec fn spec_window(i: int, total: int, chunk: int) -> Window {
    Window {
        start: (i * chunk) as u64,
        end: (if i * chunk + chunk - 1 <= total - 1 {
            i * chunk + chunk - 1
        } else {
            total - 1
        }) as u64,
    }
}

/// The full ordered window sequence of a transfer of `total` bytes in
/// `chunk`-byte windows.
pub open spec fn plan_windows(total: int, chunk: int) -> Seq<Window> {
    Seq::new(n_windows(total, chunk) as nat, |i: int| spec_window(i, total, chunk))
}

/// Sum of the lengths of a sequence of windows.
pub open spec fn sum_window_lens(ws: Seq<Window>) -> int
    decreases ws.len(),
{
    if ws.len() == 0 {
        0
    } else {
        sum_window_lens(ws.drop_last()) + window_len(ws.last())
    }
}

/// Some window of `ws` contains byte position `p`.
pub open spec fn window_covering(ws: Seq<Window>, p: int) -> bool {
    exists|i: int| 0 <= i < ws.len() && (#[trigger] ws[i]).start <= p <= ws[i].end
}

/// Placement of the `i`-th window start: it lies inside the resource, and the
/// nominal window end `i*chunk + chunk - 1` reaches the resource end exactly
/// for the last window.
proof fn lemma_window_start_bound(i: int, total: int, chunk: int)
    requires
        0 < total,
        0 < chunk,
        0 <= i < n_windows(total, chunk),
    ensures
        0 <= i * chunk <= total - 1,
        i < n_windows(total, chunk) - 1 ==> i * chunk + chunk <= total - 1,
        i == n_windows(total, chunk) - 1 ==> i * chunk + chunk >= total,
{
    let q = (total - 1) / chunk;
    lemma_remainder(total - 1, chunk);
    assert(q * chunk <= total - 1 < q * chunk + chunk);
    assert(i * chunk >= 0) by (nonlinear_arith)
        requires i >= 0 && chunk > 0;
    assert(i * chunk <= q * chunk) by (nonlinear_arith)
        requires i <= q && chunk > 0;
    if i < q {
        assert((i + 1) * chunk <= q * chunk) by (nonlinear_arith)
            requires i + 1 <= q && chunk > 0;
        assert((i + 1) * chunk == i * chunk + chunk) by (nonlinear_arith);
    }
    if i == q {
        assert(i * chunk + chunk == q * chunk + chunk);
    }
}

/// THE PARTITIONER LAW: for every `total > 0` and `chunk > 0`, the window
/// sequence is non-empty, starts at byte 0, ends at byte `total - 1`, is
/// contiguous (each window starts right after its predecessor), each window is
/// non-empty and at most `chunk` bytes wide, distinct windows do not overlap,
/// every byte of `[0, total-1]` lies in some window, and the window lengths
/// sum to exactly `total`.
pub proof fn lemma_partition_properties(total: int, chunk: int)
    requires
        0 < total <= u64::MAX,
        0 < chunk,
    ensures
        ({
            let ws = plan_windows(total, chunk);
            &&& ws.len() > 0
            &&& ws[0].start == 0
            &&& ws[ws.len() - 1].end == total - 1
            &&& forall|i: int| 0 <= i < ws.len() ==> 1 <= window_len(#[trigger] ws[i]) <= chunk
            &&& forall|i: int| 0 <= i < ws.len() ==> (#[trigger] ws[i]).end <= total - 1
            &&& forall|i: int|
                0 <= i < ws.len() - 1 ==> (#[trigger] ws[i + 1]).start == ws[i].end + 1
            &&& forall|i: int, j: int|
                0 <= i < j < ws.len() ==> (#[trigger] ws[i]).end < (#[trigger] ws[j]).start
            &&& forall|p: int| 0 <= p < total ==> #[trigger] window_covering(ws, p)
            &&& sum_window_lens(ws) == total
        }),
{
    let ws = plan_windows(total, chunk);
    let n = n_windows(total, chunk);
    lemma_remainder(total - 1, chunk);
    assert forall|i: int| 0 <= i < n implies 1 <= window_len(#[trigger] ws[i]) <= chunk
        && ws[i].end <= total - 1 && ws[i].start == i * chunk by {
        lemma_window_start_bound(i, total, chunk);
    }
    assert forall|i: int| 0 <= i < n - 1 implies (#[trigger] ws[i + 1]).start == ws[i].end + 1 by {
        lemma_window_start_bound(i, total, chunk);
        lemma_window_start_bound(i + 1, total, chunk);
        assert((i + 1) * chunk == i * chunk + chunk) by (nonlinear_arith);
    }
    lemma_window_start_bound(n - 1, total, chunk);
    assert forall|i: int, j: int| 0 <= i < j < n implies (#[trigger] ws[i]).end
        < (#[trigger] ws[j]).start by {
        lemma_window_start_bound(i, total, chunk);
        lemma_window_start_bound(j, total, chunk);
        assert(i * chunk + chunk <= j * chunk) by (nonlinear_arith)
            requires i + 1 <= j && chunk > 0;
    }
    assert forall|p: int| 0 <= p < total implies #[trigger] window_covering(ws, p) by {
        let i = p / chunk;
        lemma_remainder(p, chunk);
        assert(i * chunk <= p < i * chunk + chunk);
        assert(i < n) by {
            if i >= n {
                let q = (total - 1) / chunk;
                assert(q * chunk <= total - 1);
                assert(q * chunk < i * chunk) by (nonlinear_arith)
                    requires q < i && chunk > 0;
                lemma_fundamental_div_mod(p, chunk);
                lemma_fundamental_div_mod(total - 1, chunk);
                assert((i - q) * chunk >= chunk) by (nonlinear_arith)
                    requires i - q >= 1 && chunk > 0;
                assert(i * chunk - q * chunk == (i - q) * chunk) by (nonlinear_arith);
                assert(p >= i * chunk >= q * chunk + chunk > total - 1);
            }
        }
        lemma_window_start_bound(i, total, chunk);
        assert(ws[i].start <= p <= ws[i].end);
    }
    lemma_plan_prefix_sum(total, chunk, n);
    assert(ws.take(n) =~= ws);
}

/// The lengths of the first `k` windows sum to `k * chunk`, capped at `total`.
proof fn lemma_plan_prefix_sum(total: int, chunk: int, k: int)
    requires
        0 < total <= u64::MAX,
        0 < chunk,
        0 <= k <= n_windows(total, chunk),
    ensures
        sum_window_lens(plan_windows(total, chunk).take(k)) == if k < n_windows(total, chunk) {
            k * chunk
        } else {
            total
        },
    decreases k,
{
    let ws = plan_windows(total, chunk);
    let n = n_windows(total, chunk);
    if k == 0 {
        assert(ws.take(0).len() == 0);
        assert(0 * chunk == 0) by (nonlinear_arith);
    } else {
        lemma_plan_prefix_sum(total, chunk, k - 1);
        assert(ws.take(k).drop_last() =~= ws.take(k - 1));
        assert(ws.take(k).last() == ws[k - 1]);
        lemma_window_start_bound(k - 1, total, chunk);
        assert((k - 1) * chunk == k * chunk - chunk) by (nonlinear_arith);
        if k < n {
            assert(window_len(ws[k - 1]) == chunk);
        } else {
            assert(ws[k - 1].end == total - 1);
        }
    }
}

/// Iterator over the fixed-width windows of the byte range `[start, end]`,
/// in increasing order of offset.
#[derive(Debug)]
pub struct PartialRangeIter {
    pub start: u64,
    pub end: u64,
}

impl PartialRangeIter {
    /// A fresh iterator over the windows of `[start, end]`.
    pub fn new(start: u64, end: u64) -> (r: PartialRangeIter)
        ensures
            r.start == start,
            r.end == end,
    {
        PartialRangeIter { start, end }
    }

    /// The next window, `chunk_width` bytes wide (clipped at `end`), or `None`
    /// once the range is exhausted.
    pub fn next(&mut self, chunk_width: u64) -> (r: Option<Window>)
        requires
            chunk_width > 0,
            old(self).end < u64::MAX,
        ensures
            final(self).end == old(self).end,
            old(self).start > old(self).end ==> r is None && final(self).start == old(self).start,
            old(self).start <= old(self).end ==> {
                let e = if old(self).start + chunk_width - 1 <= old(self).end {
                    old(self).start + chunk_width - 1
                } else {
                    old(self).end as int
                };
                &&& r == Some(Window { start: old(self).start, end: e as u64 })
                &&& final(self).start == e + 1
            },
    {
        if self.start > self.end {
            None
        } else {
            let prev_start = self.start;
            let len = if chunk_width <= self.end - self.start + 1 {
                chunk_width
            } else {
                self.end - self.start + 1
            };
            self.start = self.start + len;
            Some(Window { start: prev_start, end: self.start - 1 })
        }
    }
}

/// An immutable transfer plan: the resource size, the window width, and the
/// ordered window sequence covering `[0, total_size - 1]`.
#[derive(Debug)]
pub struct TransferPlan {
    pub total_size: u64,
    pub chunk_size: u64,
    pub windows: Vec<Window>,
}

impl TransferPlan {
    /// A plan is exactly the window sequence that the partitioner formula
    /// gives for its size and width.
    pub open spec fn wf(self) -> bool {
        &&& self.total_size > 0
        &&& self.chunk_size > 0
        &&& self.windows@ == plan_windows(self.total_size as int, self.chunk_size as int)
    }
}

/// Partition the byte range `[0, total_size - 1]` into `chunk_width`-wide
/// windows; the last window may be shorter. A zero-size resource is rejected
/// with `InvalidSize`.
pub fn partition(total_size: u64, chunk_width: u64) -> (r: Result<TransferPlan, TransferError>)
    requires
        chunk_width > 0,
    ensures
        total_size == 0 <==> r == Err::<TransferPlan, TransferError>(TransferError::InvalidSize),
        total_size > 0 ==> (r matches Ok(plan) && plan.wf() && plan.total_size == total_size
            && plan.chunk_size == chunk_width),
{
    if total_size == 0 {
        return Err(TransferError::InvalidSize);
    }
    let ghost total = total_size as int;
    let ghost chunk = chunk_width as int;
    let ghost n = n_windows(total, chunk);
    let mut windows: Vec<Window> = Vec::new();
    let mut it = PartialRangeIter::new(0, total_size - 1);
    proof {
        assert(0 * chunk == 0) by (nonlinear_arith);
    }
    loop
        invariant
            chunk_width > 0,
            total_size > 0,
            total == total_size as int,
            chunk == chunk_width as int,
            n == n_windows(total, chunk),
            it.end == total_size - 1,
            windows@.len() <= n,
            windows@ =~= plan_windows(total, chunk).take(windows@.len() as int),
            it.start == if windows@.len() < n {
                windows@.len() as int * chunk
            } else {
                total
            },
        ensures
            it.start > it.end,
            it.end == total_size - 1,
            windows@.len() <= n,
            windows@ =~= plan_windows(total, chunk).take(windows@.len() as int),
            it.start == if windows@.len() < n {
                windows@.len() as int * chunk
            } else {
                total
            },
        decreases total - it.start,
    {
        let ghost k = windows@.len() as int;
        proof {
            if k < n {
                lemma_window_start_bound(k, total, chunk);
            }
        }
        match it.next(chunk_width) {
            None => {
                break;
            },
            Some(w) => {
                proof {
                    lemma_window_start_bound(k, total, chunk);
                    assert(w == spec_window(k, total, chunk));
                    assert((k + 1) * chunk == k * chunk + chunk) by (nonlinear_arith);
                    if k + 1 < n {
                        lemma_window_start_bound(k + 1, total, chunk);
                    }
                }
                windows.push(w);
                proof {
                    assert(windows@ =~= plan_windows(total, chunk).take(k + 1));
                }
            },
        }
    }
    proof {
        assert(windows@.len() == n) by {
            if windows@.len() < n {
                lemma_window_start_bound(windows@.len() as int, total, chunk);
            }
        }
        assert(windows@ =~= plan_windows(total, chunk));
    }
    Ok(TransferPlan { total_size, chunk_size: chunk_width, windows })
}

} // verus!
