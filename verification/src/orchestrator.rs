use vstd::prelude::*;
use vstd::arithmetic::div_mod::lemma_div_pos_is_pos;
use crate::errors::TransferError;
use crate::plan::{partition, TransferPlan, Window};
use crate::chunk::{ChunkModel, ChunkResult, FetchOutcome};
use crate::writer::{apply_chunk, apply_chunks, lemma_any_order_reassembles, window_chunks, zero_bytes, FanInWriter};

verus! {

/// The phases of the parallel path: plan, launch one task per window, await
/// their chunks, and end either complete or aborted. No transition returns
/// from `Aborted`.
#[derive(Clone, Copy, Debug, PartialEq, Eq, Structural)]
pub enum Phase {
    Planning,
    Dispatching,
    Awaiting,
    Complete,
    Aborted,
}

/// Ghost image of the orchestrator's control state: the phase, the count of
/// undelivered chunks, and the first error encountered, if any.
pub struct ControlState {
    pub phase: Phase,
    pub remaining: int,
    pub error: Option<TransferError>,
}

/// The error that one fetch task's report carries for a transfer of `total`
/// bytes: a network-level failure, a status other than 200 or 206, or a body
/// that cannot be placed inside the destination.
pub open spec fn outcome_error(o: FetchOutcome, total: int) -> Option<TransferError> {
    match o {
        FetchOutcome::NetworkError => Some(TransferError::TransferFailed),
        FetchOutcome::Received { status, offset, body } => {
            if !(status == 200 || status == 206) {
                Some(TransferError::UnexpectedStatus(status))
            } else if offset + body@.len() > total {
                Some(TransferError::TransferFailed)
            } else {
                None
            }
        },
    }
}

/// One control-state transition of the awaiting orchestrator: a failing
/// report aborts, a successful chunk decrements `remaining` and completes the
/// transfer when it was the last one. Outside `Awaiting` nothing moves:
/// reports of tasks already in flight when the transfer aborted are
/// discarded.
pub open spec fn step_control(s: ControlState, o: FetchOutcome, total: int) -> ControlState {
    if !(s.phase is Awaiting) {
        s
    } else {
        match outcome_error(o, total) {
            Some(e) => ControlState { phase: Phase::Aborted, remaining: s.remaining, error: Some(e) },
            None => ControlState {
                phase: if s.remaining == 1 {
                    Phase::Complete
                } else {
                    Phase::Awaiting
                },
                remaining: s.remaining - 1,
                error: None,
            },
        }
    }
}

/// The control state after a whole sequence of fetch reports, in arrival
/// order.
pub open spec fn run_control(s: ControlState, os: Seq<FetchOutcome>, total: int) -> ControlState
    decreases os.len(),
{
    if os.len() == 0 {
        s
    } else {
        run_control(step_control(s, os.first(), total), os.drop_first(), total)
    }
}

/// `Aborted` is terminal: no later report moves the control state.
pub proof fn lemma_aborted_is_terminal(s: ControlState, os: Seq<FetchOutcome>, total: int)
    requires
        s.phase is Aborted,
    ensures
        run_control(s, os, total) == s,
    decreases os.len(),
{
    if os.len() > 0 {
        lemma_aborted_is_terminal(s, os.drop_first(), total);
    }
}

/// THE ABORT LAW: if any one fetch task reports a failure — a bad status or
/// a network-level error — the orchestrator ends `Aborted` carrying the
/// first such error, never `Complete`, so the destination is never handed to
/// the installer. Holds for every arrival order; `i` is the position of the
/// first failing report, and there are no more reports than undelivered
/// chunks.
pub proof fn lemma_first_failure_aborts(
    s: ControlState,
    os: Seq<FetchOutcome>,
    total: int,
    i: int,
)
    requires
        s.phase is Awaiting,
        s.remaining >= os.len(),
        0 <= i < os.len(),
        outcome_error(os[i], total) is Some,
        forall|j: int| 0 <= j < i ==> outcome_error(#[trigger] os[j], total) is None,
    ensures
        run_control(s, os, total).phase is Aborted,
        run_control(s, os, total).error == outcome_error(os[i], total),
    decreases i,
{
    if i == 0 {
        let s1 = step_control(s, os.first(), total);
        assert(s1.phase is Aborted);
        lemma_aborted_is_terminal(s1, os.drop_first(), total);
    } else {
        assert(outcome_error(os[0], total) is None);
        let s1 = step_control(s, os.first(), total);
        assert(s1.remaining == s.remaining - 1);
        assert(s1.phase is Awaiting) by {
            assert(os.len() >= 2);
        }
        let rest = os.drop_first();
        assert(rest[i - 1] == os[i]);
        assert forall|j: int| 0 <= j < i - 1 implies outcome_error(
            #[trigger] rest[j],
            total,
        ) is None by {
            assert(rest[j] == os[j + 1]);
        }
        lemma_first_failure_aborts(s1, rest, total, i - 1);
    }
}

/// THE COMPLETION LAW: when every report succeeds and there is exactly one
/// report per undelivered chunk, the orchestrator ends `Complete` with no
/// chunk outstanding and no error: success is owed whenever no task fails.
pub proof fn lemma_all_successes_complete(s: ControlState, os: Seq<FetchOutcome>, total: int)
    requires
        s.phase is Awaiting,
        s.remaining == os.len(),
        os.len() > 0,
        forall|j: int| 0 <= j < os.len() ==> outcome_error(#[trigger] os[j], total) is None,
    ensures
        run_control(s, os, total).phase is Complete,
        run_control(s, os, total).remaining == 0,
        run_control(s, os, total).error is None,
    decreases os.len(),
{
    assert(outcome_error(os[0], total) is None);
    assert(os.first() == os[0]);
    let s1 = step_control(s, os.first(), total);
    if os.len() == 1 {
        reveal_with_fuel(run_control, 2);
        assert(s1.phase is Complete && s1.remaining == 0 && s1.error is None);
        assert(os.drop_first().len() == 0);
    } else {
        assert(s1.phase is Awaiting);
        let rest = os.drop_first();
        assert forall|j: int| 0 <= j < rest.len() implies outcome_error(
            #[trigger] rest[j],
            total,
        ) is None by {
            assert(rest[j] == os[j + 1]);
        }
        lemma_all_successes_complete(s1, rest, total);
    }
}

/// When the delivered chunks are, in some order, exactly the window chunks
/// of `resource`, a completed orchestrator's destination holds `resource`
/// itself: the parallel path produced a file byte-identical to what the
/// sequential fallback streams.
pub proof fn lemma_complete_artifact_is_resource(o: Orchestrator, resource: Seq<u8>)
    requires
        o.wf(),
        o.phase == Phase::Complete,
        resource.len() == o.plan.total_size,
        o.writer.delivered@.to_multiset() == window_chunks(
            resource,
            o.plan.chunk_size as int,
        ).to_multiset(),
    ensures
        o.writer.buffer@ == resource,
{
    lemma_any_order_reassembles(
        zero_bytes(o.plan.total_size as nat),
        resource,
        o.plan.chunk_size as int,
        o.writer.delivered@,
    );
}

/// Owns the parallel path: plans the transfer, supervises the fetch tasks'
/// reports through the fan-in writer, aborts on the first failure, and hands
/// the completed artifact to the installer only when every chunk has landed.
pub struct Orchestrator {
    pub phase: Phase,
    pub plan: TransferPlan,
    pub writer: FanInWriter,
    pub error: Option<TransferError>,
}

impl Orchestrator {
    /// The orchestrator's invariant: the plan is a faithful partition, the
    /// destination is exactly the delivered chunks written over a zero-filled
    /// buffer of the resource's size, `remaining` counts the windows not yet
    /// delivered, and the phase agrees with both counters. Planning completes
    /// inside `start`, so no live orchestrator is still planning.
    pub open spec fn wf(self) -> bool {
        &&& self.plan.wf()
        &&& self.plan.total_size <= usize::MAX
        &&& self.writer.wf()
        &&& self.writer.buffer@.len() == self.plan.total_size
        &&& self.writer.remaining + self.writer.delivered@.len() == self.plan.windows@.len()
        &&& match self.phase {
            Phase::Planning => false,
            Phase::Dispatching => self.writer.delivered@.len() == 0 && self.writer.remaining > 0
                && self.error is None,
            Phase::Awaiting => self.writer.remaining > 0 && self.error is None,
            Phase::Complete => self.writer.remaining == 0 && self.error is None,
            Phase::Aborted => self.error is Some,
        }
    }

    /// Ghost image of the control state.
    pub open spec fn control(self) -> ControlState {
        ControlState {
            phase: self.phase,
            remaining: self.writer.remaining as int,
            error: self.error,
        }
    }

    /// Plan a parallel transfer from a HEAD response. A missing
    /// `Content-Length` is rejected with `MissingContentLength` before any
    /// fetch task is dispatched; a zero length with `InvalidSize`. On success
    /// the orchestrator holds the window plan and a zero-filled destination,
    /// and owes one chunk per window.
    pub fn start(content_length: Option<u64>, chunk_width: u64) -> (r: Result<
        Orchestrator,
        TransferError,
    >)
        requires
            chunk_width > 0,
            content_length matches Some(n) ==> n <= usize::MAX,
        ensures
            content_length is None ==> r == Err::<Orchestrator, TransferError>(
                TransferError::MissingContentLength,
            ),
            content_length == Some(0u64) ==> r == Err::<Orchestrator, TransferError>(
                TransferError::InvalidSize,
            ),
            content_length matches Some(n) ==> (n > 0 ==> (r matches Ok(o) && o.wf()
                && o.phase == Phase::Dispatching && o.plan.total_size == n && o.plan.chunk_size
                == chunk_width && o.writer.delivered@.len() == 0)),
    {
        match content_length {
            None => Err(TransferError::MissingContentLength),
            Some(n) => {
                match partition(n, chunk_width) {
                    Err(e) => Err(e),
                    Ok(plan) => {
                        proof {
                            lemma_div_pos_is_pos(n as int - 1, chunk_width as int);
                        }
                        let chunk_count = plan.windows.len();
                        let writer = FanInWriter::new(n as usize, chunk_count);
                        Ok(
                            Orchestrator {
                                phase: Phase::Dispatching,
                                plan,
                                writer,
                                error: None,
                            },
                        )
                    },
                }
            },
        }
    }

    /// The planned windows, one fetch task to be dispatched per window.
    pub fn windows(&self) -> (r: &Vec<Window>)
        ensures
            r@ == self.plan.windows@,
    {
        &self.plan.windows
    }

    /// Every fetch task has been launched: start awaiting their reports.
    pub fn dispatched(&mut self)
        requires
            old(self).wf(),
            old(self).phase == Phase::Dispatching,
        ensures
            final(self).wf(),
            final(self).phase == Phase::Awaiting,
            final(self).plan == old(self).plan,
            final(self).writer == old(self).writer,
            final(self).error is None,
    {
        self.phase = Phase::Awaiting;
    }

    /// Consume one fetch task's report. A failure aborts the whole transfer
    /// and surfaces its error; a successful chunk is written at its absolute
    /// offset, and the transfer completes when the last owed chunk lands.
    /// The control state moves exactly one `step_control` step.
    pub fn on_fetch(&mut self, outcome: FetchOutcome) -> (r: Result<(), TransferError>)
        requires
            old(self).wf(),
            old(self).phase == Phase::Awaiting,
        ensures
            final(self).wf(),
            final(self).plan == old(self).plan,
            final(self).control() == step_control(
                old(self).control(),
                outcome,
                old(self).plan.total_size as int,
            ),
            match outcome_error(outcome, old(self).plan.total_size as int) {
                Some(e) => r == Err::<(), TransferError>(e) && final(self).phase == Phase::Aborted
                    && final(self).error == Some(e) && final(self).writer == old(self).writer,
                None => r is Ok && final(self).error is None && (outcome matches
                FetchOutcome::Received { status, offset, body } ==> {
                    &&& final(self).writer.buffer@ == apply_chunk(
                        old(self).writer.buffer@,
                        ChunkModel { offset: offset as int, bytes: body@ },
                    )
                    &&& final(self).writer.delivered@ == old(self).writer.delivered@.push(
                        ChunkModel { offset: offset as int, bytes: body@ },
                    )
                    &&& final(self).writer.remaining == old(self).writer.remaining - 1
                    &&& (final(self).phase == Phase::Complete <==> final(self).writer.remaining
                        == 0)
                }),
            },
    {
        match outcome {
            FetchOutcome::NetworkError => {
                self.phase = Phase::Aborted;
                self.error = Some(TransferError::TransferFailed);
                Err(TransferError::TransferFailed)
            },
            FetchOutcome::Received { status, offset, body } => {
                if !crate::chunk::status_accepted(status) {
                    self.phase = Phase::Aborted;
                    self.error = Some(TransferError::UnexpectedStatus(status));
                    Err(TransferError::UnexpectedStatus(status))
                } else {
                    let total = self.plan.total_size;
                    if offset > total || (body.len() as u64) > total - offset {
                        self.phase = Phase::Aborted;
                        self.error = Some(TransferError::TransferFailed);
                        Err(TransferError::TransferFailed)
                    } else {
                        self.writer.deliver(ChunkResult { offset, bytes: body });
                        if self.writer.is_complete() {
                            self.phase = Phase::Complete;
                        }
                        Ok(())
                    }
                }
            },
        }
    }

    /// Whether the completed artifact may be handed to the installer: only in
    /// `Complete`, never after an abort.
    pub fn should_install(&self) -> (r: bool)
        ensures
            r == (self.phase == Phase::Complete),
    {
        self.phase == Phase::Complete
    }

    /// Whether the temp artifact is due for removal: in both terminal phases
    /// — after installation on success, and as cleanup after an abort.
    pub fn cleanup_due(&self) -> (r: bool)
        ensures
            r == (self.phase == Phase::Complete || self.phase == Phase::Aborted),
    {
        self.phase == Phase::Complete || self.phase == Phase::Aborted
    }

    /// Hand out the fully assembled artifact: the zero-filled destination
    /// overwritten by every delivered chunk, one per window.
    pub fn take_artifact(self) -> (r: Vec<u8>)
        requires
            self.wf(),
            self.phase == Phase::Complete,
        ensures
            r@ == apply_chunks(zero_bytes(self.plan.total_size as nat), self.writer.delivered@),
            self.writer.delivered@.len() == self.plan.windows@.len(),
            r@.len() == self.plan.total_size,
    {
        self.writer.into_bytes()
    }
}

} // verus!
