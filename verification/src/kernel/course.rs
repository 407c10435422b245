//! The course of a kernel session: what a submission, an end, a receipt, a checkpoint and a
//! restore owe to one another.

use crate::kernel::custody::{
    absence, after_end, captured_of, checkpoint_of, checkpoint_sink_name, execution_status, framed_body,
    orphan_receipt, reconcile_step, restore_answer, restore_outcome, session_receipt_of,
    session_status, settle_execution_outcome, settled_receipt, sink_name, snapshot_answer,
    submit_outcome, wait_step,
    AfterView, IncarnationView, KernelExecutionView, LiveView, RestorePlanView, StopCause,
    SubmitView,
};
use crate::kernel::frame::{FrameView, SegmentView};
use crate::kernel::receipt::{
    checkpoint_fault, duration, execution_identity, execution_receipt_fault, session_identity,
    session_receipt_fault, CarriedView, CheckpointView, EndView, ExecutionReceiptView,
    ExecutionStatusView, LossView, SessionEndView, SessionReceiptView, SessionStatusView,
};
use crate::kernel::snapshot::snapshot_outcome;
use crate::kernel::spec::{
    source_identity, spec_fault, spec_identity, submission_fault, SpecView, SubmissionView,
};
use crate::kernel::{
    execution_bounds_fault, key_fault, session_bounds_fault, ExecutionBoundsView, KernelFault,
    KeyView, SessionBoundsView, LOCAL_KERNEL_PROTOCOL, MAX_KERNEL_CAPTURE_BYTES,
    MAX_KERNEL_EXECUTION_DEADLINE_MS, MAX_KERNEL_IDLE_DEADLINE_MS,
    MAX_KERNEL_NON_RESTORABLE_FACTS, MAX_KERNEL_RESTORABLE_FACTS, MAX_KERNEL_SESSION_EXECUTIONS,
    MAX_KERNEL_SOURCE_BYTES,
};
use crate::program::{execution_id_fault, CaptureView, Liveness, ProgramStream};
use crate::text::{decimal, lemma_decimal_injective, utf8_len};
use vstd::prelude::*;

verus! {

/// A valid submission without the frame mark runs exactly where its incarnation is live, has not
/// idled beyond its deadline, has a place left and is not executing. One that idled too long
/// expires, even where it has no place left; one that has no place left has reached its ceiling,
/// even while it executes. What runs takes the next place, is recorded under its own source, the
/// session's image and its own bounds, and its source reaches the kernel whole between the two
/// marks.
pub proof fn law_submissions_run_where_there_is_room(
    key: KeyView,
    submission: SubmissionView,
    live: LiveView,
    now_ms: u64,
)
    requires
        key_fault(key) is None,
        submission_fault(submission) is None,
    ensures
        ({
            let answer = submit_outcome(key, submission, Ok(live), now_ms);
            let sound = !submission.source.contains('\x1e') && live.generation == key.generation;
            let idle = now_ms > live.last_activity_ms + live.bounds.idle_deadline_ms;
            let full = live.executions >= live.bounds.max_executions;
            &&& (answer matches Ok(SubmitView::Expire)) <==> sound && idle
            &&& (answer matches Ok(SubmitView::Ceiling)) <==> sound && !idle && full
            &&& (answer matches Ok(SubmitView::Run { .. })) <==> sound && !idle && !full
                && live.in_flight is None
            &&& answer matches Ok(SubmitView::Run { sequence, record, frame }) ==> {
                &&& sequence == live.executions + 1
                &&& record.source_digest == source_identity(submission.source)
                &&& record.spec_digest == live.spec_digest
                &&& record.bounds == submission.bounds
                &&& submission.source.len() == 0 || submission.source.last() == '\n' ==> frame
                    == "\x1e\x1eexec\n"@ + submission.source + "\x1e\x1eend\n"@
                &&& submission.source.len() > 0 && submission.source.last() != '\n' ==> frame
                    == "\x1e\x1eexec\n"@ + submission.source + "\n\x1e\x1eend\n"@
            }
        }),
{
    let source = submission.source;
    assert(submission.source.contains('\x1e') ==> crate::kernel::custody::holds_mark(source));
    lemma_exec_frame(source);
}

proof fn lemma_exec_frame(source: Seq<char>)
    ensures
        source.len() > 0 && source.last() != '\n' ==> framed_body("exec"@, source)
            == "\x1e\x1eexec\n"@ + source + "\n\x1e\x1eend\n"@,
        !(source.len() > 0 && source.last() != '\n') ==> framed_body("exec"@, source)
            == "\x1e\x1eexec\n"@ + source + "\x1e\x1eend\n"@,
{
    reveal_strlit("\x1e\x1e");
    reveal_strlit("exec");
    reveal_strlit("\n");
    reveal_strlit("\x1e\x1eend\n");
    reveal_strlit("\x1e\x1eexec\n");
    reveal_strlit("\n\x1e\x1eend\n");
    assert("\x1e\x1e"@ + "exec"@ + "\n"@ =~= "\x1e\x1eexec\n"@);
    if source.len() > 0 && source.last() != '\n' {
        assert("\n"@ + "\x1e\x1eend\n"@ =~= "\n\x1e\x1eend\n"@);
        assert(framed_body("exec"@, source) =~= "\x1e\x1eexec\n"@ + source
            + "\n\x1e\x1eend\n"@);
    } else {
        assert(framed_body("exec"@, source) =~= "\x1e\x1eexec\n"@ + source + "\x1e\x1eend\n"@);
    }
}

/// A session that is not held live passes its refusal on: a settled one is not live, another one
/// is not owned, and one that is not known is not found. No submission runs there.
pub proof fn law_absent_sessions_run_nothing(
    key: KeyView,
    submission: SubmissionView,
    status: Option<SessionStatusView>,
    now_ms: u64,
)
    ensures
        submit_outcome(key, submission, Err(absence(status, key.session)), now_ms) is Err,
        absence(status, key.session) is SessionNotFound <==> status is None,
        absence(status, key.session) is NotLive <==> status is Some && status->Some_0 is Settled,
        absence(status, key.session) is Unowned <==> status is Some && !(status->Some_0 is Settled),
        key_fault(key) is None && submission_fault(submission) is None
            && !submission.source.contains('\x1e') ==> submit_outcome(
            key,
            submission,
            Err(absence(status, key.session)),
            now_ms,
        ) == Err::<SubmitView, KernelFault>(absence(status, key.session)),
{
}

/// An execution settles as soon as both streams ended and not before. It is interrupted once: for
/// a cancel wherever there is one, for the deadline only when it has passed; and it is killed only
/// when it was interrupted and its grace is over.
pub proof fn law_waits_interrupt_before_they_kill(
    both_ended: bool,
    stopping: Option<StopCause>,
    cancelled: bool,
    elapsed_ms: u64,
    deadline_ms: u64,
    grace_over: bool,
)
    ensures
        ({
            let step = wait_step(
                both_ended,
                stopping,
                cancelled,
                elapsed_ms,
                deadline_ms,
                grace_over,
            );
            &&& step is Settle <==> both_ended
            &&& step is InterruptCancelled <==> !both_ended && stopping is None && cancelled
            &&& step is InterruptTimedOut <==> !both_ended && stopping is None && !cancelled
                && deadline_ms <= elapsed_ms
            &&& step is Kill <==> !both_ended && stopping is Some && grace_over
        }),
{
}

/// A session goes on after every execution that did not take its kernel with it and that left it
/// within its captured bytes. A dead kernel settles its session by its exit code, or as
/// interrupted where there is none.
pub proof fn law_sessions_outlive_their_executions(
    end: EndView,
    exit_code: Option<i32>,
    captured_bytes: u64,
    max_captured_bytes: u64,
)
    ensures
        ({
            let after = after_end(end, exit_code, captured_bytes, max_captured_bytes);
            &&& after is Died <==> end is KernelDied
            &&& after is Ceiling <==> !(end is KernelDied) && max_captured_bytes < captured_bytes
            &&& after is Continue <==> !(end is KernelDied) && captured_bytes
                <= max_captured_bytes
            &&& after matches AfterView::Died(how) ==> {
                &&& how is Interrupted <==> exit_code is None
                &&& exit_code matches Some(code) ==> how == (SessionEndView::Exited { code })
            }
        }),
{
}

/// The receipt of an execution names the key, the place, the source, the image and the bounds that
/// it was submitted with, its end, and the captures of both streams, in their order; it settled
/// when it had run its time. An execution that nobody read to its end keeps the same facts, and
/// its output is absent.
pub proof fn law_receipts_tell_what_was_run(
    pending: KernelExecutionView,
    end: EndView,
    elapsed_ms: u64,
    stdout: CaptureView,
    stderr: CaptureView,
    now_ms: u64,
)
    ensures
        ({
            let receipt = settled_receipt(
                pending.key,
                pending.sequence,
                pending.record,
                end,
                pending.started_at_ms,
                elapsed_ms,
                stdout,
                stderr,
            );
            let orphan = orphan_receipt(pending, end, now_ms);
            &&& tells_of(pending, end, receipt)
            &&& receipt.stdout == Some(stdout)
            &&& receipt.stderr == Some(stderr)
            &&& pending.started_at_ms + elapsed_ms <= u64::MAX ==> receipt.settled_at_ms
                == pending.started_at_ms + elapsed_ms
            &&& receipt.settled_at_ms >= receipt.started_at_ms
            &&& tells_of(pending, end, orphan)
            &&& orphan.stdout is None
            &&& orphan.stderr is None
            &&& orphan.settled_at_ms >= orphan.started_at_ms
            &&& now_ms >= pending.started_at_ms ==> orphan.settled_at_ms == now_ms
        }),
{
}

/// Whether a receipt is of an execution, with an end.
pub open spec fn tells_of(
    pending: KernelExecutionView,
    end: EndView,
    receipt: ExecutionReceiptView,
) -> bool {
    &&& receipt.key == pending.key
    &&& receipt.sequence == pending.sequence
    &&& receipt.source_digest == pending.record.source_digest
    &&& receipt.spec_digest == pending.record.spec_digest
    &&& receipt.bounds == pending.record.bounds
    &&& receipt.disposition == end
    &&& receipt.started_at_ms == pending.started_at_ms
    &&& receipt.checkpoint is None
}

/// The receipt of a session names its incarnation and image, its end, when it was opened, and what
/// it ran and captured; it settled now, and never before it was opened.
pub proof fn law_session_receipts_tell_what_was_kept(
    session: Seq<char>,
    stored: IncarnationView,
    end: SessionEndView,
    now_ms: u64,
)
    ensures
        ({
            let receipt = session_receipt_of(session, stored, end, now_ms);
            &&& receipt.session == session
            &&& receipt.generation == stored.generation
            &&& receipt.spec_digest == stored.spec.spec_digest
            &&& receipt.disposition == end
            &&& receipt.opened_at_ms == stored.opened_at_ms
            &&& receipt.executions == stored.executions
            &&& receipt.captured_bytes == stored.captured_bytes
            &&& receipt.settled_at_ms >= receipt.opened_at_ms
            &&& now_ms >= stored.opened_at_ms ==> receipt.settled_at_ms == now_ms
        }),
{
}

/// An execution settles once: the first settlement of one in flight stands and is written, and
/// every later one is answered with it and writes nothing. One that is neither in flight nor
/// settled is not found.
pub proof fn law_executions_settle_once(
    first: ExecutionReceiptView,
    second: ExecutionReceiptView,
    in_flight: bool,
)
    ensures
        settle_execution_outcome(None, true, first) == Ok::<
            (ExecutionReceiptView, bool),
            KernelFault,
        >((first, true)),
        settle_execution_outcome(Some(first), in_flight, second) == Ok::<
            (ExecutionReceiptView, bool),
            KernelFault,
        >((first, false)),
        settle_execution_outcome(None, false, first) == Err::<
            (ExecutionReceiptView, bool),
            KernelFault,
        >(KernelFault::ExecutionNotFound(first.key.execution)),
{
}

/// A stored receipt is what its session or execution is known by, whoever asks. Without one, it is
/// known as live or in flight to the handle that owns it and as uncertain to every other, by the
/// same facts.
pub proof fn law_statuses_tell_what_is_stored(
    stored: IncarnationView,
    execution: KernelExecutionView,
    owned: bool,
)
    ensures
        ({
            let status = session_status(stored, owned);
            &&& stored.receipt is Some ==> status == Ok::<SessionStatusView, KernelFault>(
                SessionStatusView::Settled(stored.receipt->Some_0),
            )
            &&& status is Err <==> stored.receipt is None && stored.pid == 0
            &&& (status matches Ok(SessionStatusView::Live { .. })) <==> stored.receipt is None
                && stored.pid != 0 && owned
            &&& (status matches Ok(SessionStatusView::Uncertain { .. })) <==> stored.receipt is None
                && stored.pid != 0 && !owned
            &&& status matches Ok(
                SessionStatusView::Live { generation, process, opened_at_ms, executions },
            ) ==> generation == stored.generation && process == (stored.pid, stored.owner)
                && opened_at_ms == stored.opened_at_ms && executions == stored.executions
            &&& status matches Ok(
                SessionStatusView::Uncertain { generation, process, opened_at_ms, executions },
            ) ==> generation == stored.generation && process == (stored.pid, stored.owner)
                && opened_at_ms == stored.opened_at_ms && executions == stored.executions
        }),
        ({
            let status = execution_status(execution, owned);
            &&& execution.receipt is Some ==> status == ExecutionStatusView::Settled(
                execution.receipt->Some_0,
            )
            &&& status is InFlight <==> execution.receipt is None && owned
            &&& status is Uncertain <==> execution.receipt is None && !owned
            &&& status matches ExecutionStatusView::InFlight { sequence, started_at_ms }
                ==> sequence == execution.sequence && started_at_ms == execution.started_at_ms
            &&& status matches ExecutionStatusView::Uncertain { sequence, started_at_ms }
                ==> sequence == execution.sequence && started_at_ms == execution.started_at_ms
        }),
{
}

/// A checkpoint of a live session names the session, its incarnation, the image and the place that
/// it was taken behind, and carries the declarations of the snapshot.
pub proof fn law_checkpoints_name_their_place(
    artifact: Seq<char>,
    session: Seq<char>,
    live: LiveView,
    carried: Seq<CarriedView>,
    lost: Seq<LossView>,
    now_ms: u64,
)
    ensures
        ({
            let checkpoint = checkpoint_of(artifact, session, live, carried, lost, now_ms);
            &&& checkpoint.artifact == artifact
            &&& checkpoint.session == session
            &&& checkpoint.generation == live.generation
            &&& checkpoint.after_sequence == live.executions
            &&& checkpoint.spec_digest == live.spec_digest
            &&& checkpoint.taken_at_ms == now_ms
            &&& checkpoint.restorable == carried
            &&& checkpoint.non_restorable == lost
        }),
{
}

/// A snapshot counts exactly where the kernel said that it was done, all that it produced was
/// captured, nothing went to the other stream, and what it wrote declares a snapshot; its
/// declarations are those of what it wrote. A kernel that died leaves none, and every other answer
/// is refused.
pub proof fn law_snapshots_count_when_whole(stdout: SegmentView, stderr: SegmentView)
    ensures
        ({
            let answer = snapshot_answer(stdout, stderr);
            let declared = snapshot_outcome(stdout.capture.content);
            &&& (answer matches Ok(Some(_))) <==> stdout.status == Some(FrameView::Done)
                && stdout.capture.produced_bytes <= stdout.capture.content.len()
                && stderr.capture.content.len() == 0 && declared is Ok
            &&& (answer matches Ok(None)) <==> stdout.status is None
            &&& answer matches Ok(Some(facts)) ==> declared matches Ok(said) && said == facts
        }),
{
}

/// A restore starts exactly where the image is sound and is the checkpoint's, the checkpoint is
/// sound, and the session has settled with a number left; the new incarnation has the next number.
/// Another image is named beside the one that the checkpoint was taken with, and nothing starts.
/// So a checkpoint taken of a live session starts it again, once it settled, from the same image.
pub proof fn law_restores_follow_settled_sessions(
    session: Seq<char>,
    checkpoint: CheckpointView,
    spec: SpecView,
    root_is_dir: bool,
    status: Option<SessionStatusView>,
)
    requires
        spec_fault(spec, root_is_dir) is None,
        spec.protocol == LOCAL_KERNEL_PROTOCOL@,
        checkpoint_fault(checkpoint) is None,
    ensures
        ({
            let plan = restore_outcome(session, checkpoint, spec, root_is_dir, status);
            let same = spec_identity(spec) == checkpoint.spec_digest;
            let settled = status is Some && status->Some_0 is Settled;
            let last = status->Some_0->Settled_0.generation;
            &&& (plan matches Ok(RestorePlanView::Start { .. })) <==> same && settled && last
                < u64::MAX
            &&& (plan matches Ok(RestorePlanView::Mismatch { .. })) <==> !same
            &&& plan matches Ok(RestorePlanView::Start { generation }) ==> generation == last + 1
            &&& plan matches Ok(RestorePlanView::Mismatch { expected, found }) ==> expected
                == checkpoint.spec_digest && found == spec_identity(spec)
            &&& plan matches Err(KernelFault::SessionNotFound(name)) ==> name == session && status
                is None
            &&& same && status is None ==> plan is Err
        }),
{
}

/// A kernel restored its state exactly where it said that it was done, and refused it exactly where
/// it rejected it, for the reason that it gave; every other answer is an error.
pub proof fn law_restores_tell_the_kernels_answer(status: Option<FrameView>, reason: Seq<char>)
    ensures
        (restore_answer(status) matches Ok(None)) <==> status == Some(FrameView::Done),
        restore_answer(status) == Ok::<Option<Seq<char>>, KernelFault>(Some(reason)) <==> status
            == Some(FrameView::Rejected(reason)),
        restore_answer(status) is Err <==> status is None || status->Some_0 is Raised
            || status->Some_0 is Cancelled,
{
}

/// Only a session that has not settled and whose process is gone is interrupted: a settled one is
/// answered with what it has, one whose process lives is left to it, and where nothing is known
/// nothing is decided.
pub proof fn law_only_gone_processes_are_interrupted(settled: bool, liveness: Liveness)
    ensures
        reconcile_step(settled, liveness) is Replay <==> settled,
        reconcile_step(settled, liveness) is Interrupt <==> !settled && liveness is Gone,
        reconcile_step(settled, liveness) is StillLive <==> !settled && liveness is Live,
        reconcile_step(settled, liveness) is Uncertain <==> !settled && liveness is Unknown,
{
}

/// Bounds are in order exactly where every deadline and ceiling is above zero and none is above
/// what the contract allows; a capture may be bound to nothing.
pub proof fn law_bounds_are_within_the_contract(
    session: SessionBoundsView,
    execution: ExecutionBoundsView,
)
    ensures
        session_bounds_fault(session) is None <==> {
            &&& 0 < session.idle_deadline_ms <= MAX_KERNEL_IDLE_DEADLINE_MS
            &&& 0 < session.max_executions <= MAX_KERNEL_SESSION_EXECUTIONS
            &&& 0 < session.max_captured_bytes
        },
        execution_bounds_fault(execution) is None <==> {
            &&& 0 < execution.deadline_ms <= MAX_KERNEL_EXECUTION_DEADLINE_MS
            &&& execution.stdout_capture_bytes <= MAX_KERNEL_CAPTURE_BYTES
            &&& execution.stderr_capture_bytes <= MAX_KERNEL_CAPTURE_BYTES
        },
{
}

/// A submission is in order exactly where its source says something, within its bound and without a
/// NUL, and its bounds are in order.
pub proof fn law_submissions_carry_a_source(submission: SubmissionView)
    ensures
        submission_fault(submission) is None <==> {
            &&& submission.source.len() > 0
            &&& utf8_len(submission.source) <= MAX_KERNEL_SOURCE_BYTES
            &&& !submission.source.contains('\0')
            &&& execution_bounds_fault(submission.bounds) is None
        },
{
}

/// A checkpoint is in order exactly where it is of an incarnation, declares something, declares no
/// more than the contract allows, and every declaration names something.
pub proof fn law_checkpoints_declare_something(checkpoint: CheckpointView)
    ensures
        checkpoint_fault(checkpoint) is None <==> {
            &&& checkpoint.generation > 0
            &&& checkpoint.restorable.len() + checkpoint.non_restorable.len() > 0
            &&& checkpoint.restorable.len() <= MAX_KERNEL_RESTORABLE_FACTS
            &&& checkpoint.non_restorable.len() <= MAX_KERNEL_NON_RESTORABLE_FACTS
            &&& forall|i: int|
                0 <= i < checkpoint.restorable.len() ==> (
                #[trigger] checkpoint.restorable[i]).number() > 0
            &&& forall|i: int|
                0 <= i < checkpoint.non_restorable.len() ==> (
                #[trigger] checkpoint.non_restorable[i]).number() > 0
        },
{
}

/// Whether the capture of a stream is in order under the bounds of its execution: its counts fit
/// together, it cites the bound that was declared for its stream, and it is of that stream.
pub open spec fn capture_in_order(
    capture: CaptureView,
    stream: ProgramStream,
    bounds: ExecutionBoundsView,
) -> bool {
    &&& capture.stream == stream
    &&& capture.captured_bytes <= capture.produced_bytes
    &&& capture.captured_bytes <= capture.declared_bound
    &&& capture.truncated <==> capture.captured_bytes < capture.produced_bytes
    &&& stream is Stdout ==> capture.declared_bound == bounds.stdout_capture_bytes
    &&& stream is Stderr ==> capture.declared_bound == bounds.stderr_capture_bytes
}

/// A stored receipt of an execution is accepted exactly where its key and bounds are in order, it
/// has a place, it does not settle before it starts, both captures are in order where they are
/// there, a checkpoint that it cites is in order and of the same incarnation, and it addresses to
/// the digest that was stored beside it.
#[verifier::spinoff_prover]
#[verifier::rlimit(40)]
pub proof fn law_execution_receipts_are_accepted_when_sound(
    receipt: ExecutionReceiptView,
    expected: Seq<char>,
)
    ensures
        execution_receipt_fault(receipt, expected) is None <==> {
            &&& key_fault(receipt.key) is None
            &&& execution_bounds_fault(receipt.bounds) is None
            &&& receipt.sequence > 0
            &&& receipt.started_at_ms <= receipt.settled_at_ms
            &&& receipt.stdout matches Some(capture) ==> capture_in_order(
                capture,
                ProgramStream::Stdout,
                receipt.bounds,
            )
            &&& receipt.stderr matches Some(capture) ==> capture_in_order(
                capture,
                ProgramStream::Stderr,
                receipt.bounds,
            )
            &&& receipt.checkpoint matches Some(checkpoint) ==> {
                &&& checkpoint_fault(checkpoint) is None
                &&& checkpoint.session == receipt.key.session
                &&& checkpoint.generation == receipt.key.generation
            }
            &&& execution_identity(receipt) == expected
        },
{
}

/// A stored receipt of a session is accepted exactly where it is of an incarnation, does not settle
/// before it opens, counts no more executions than a session may have, and addresses to the digest
/// that was stored beside it.
pub proof fn law_session_receipts_are_accepted_when_sound(
    receipt: SessionReceiptView,
    expected: Seq<char>,
)
    ensures
        session_receipt_fault(receipt, expected) is None <==> {
            &&& receipt.generation > 0
            &&& receipt.opened_at_ms <= receipt.settled_at_ms
            &&& receipt.executions <= MAX_KERNEL_SESSION_EXECUTIONS
            &&& session_identity(receipt) == expected
        },
{
}

proof fn lemma_middle(head: Seq<char>, a: Seq<char>, b: Seq<char>, tail: Seq<char>)
    requires
        head + a + tail == head + b + tail,
    ensures
        a == b,
{
    let left = head + a + tail;
    let right = head + b + tail;
    assert(left.len() == right.len());
    assert forall|i: int| 0 <= i < a.len() implies a[i] == b[i] by {
        assert(left[head.len() + i] == a[i]);
        assert(right[head.len() + i] == b[i]);
    }
    assert(a =~= b);
}

/// Output is stored under a name of its own, where names can be read: two executions that differ in
/// their session, their incarnation or their identity alone are stored under different names, and
/// so are the checkpoints of two incarnations.
pub proof fn law_output_is_stored_under_its_own_name(
    session: Seq<char>,
    generation: u64,
    execution: Seq<char>,
    other_session: Seq<char>,
    other_generation: u64,
    other_execution: Seq<char>,
)
    requires
        ({
            let one = decimal(generation as nat);
            let two = decimal(other_generation as nat);
            &&& execution_id_fault(session + "."@ + one + "."@ + execution) is None
            &&& execution_id_fault(other_session + "."@ + one + "."@ + execution) is None
            &&& execution_id_fault(session + "."@ + two + "."@ + execution) is None
            &&& execution_id_fault(session + "."@ + one + "."@ + other_execution) is None
            &&& execution_id_fault(session + "."@ + one + ".checkpoint"@) is None
            &&& execution_id_fault(session + "."@ + two + ".checkpoint"@) is None
        }),
    ensures
        sink_name(KeyView { session, generation, execution }) == sink_name(
            KeyView { session: other_session, generation, execution },
        ) ==> session == other_session,
        sink_name(KeyView { session, generation, execution }) == sink_name(
            KeyView { session, generation: other_generation, execution },
        ) ==> generation == other_generation,
        sink_name(KeyView { session, generation, execution }) == sink_name(
            KeyView { session, generation, execution: other_execution },
        ) ==> execution == other_execution,
        checkpoint_sink_name(session, generation) == checkpoint_sink_name(session, other_generation)
            ==> generation == other_generation,
{
    let one = decimal(generation as nat);
    let two = decimal(other_generation as nat);
    let none = Seq::<char>::empty();
    let name = session + "."@ + one + "."@ + execution;
    let key = KeyView { session, generation, execution };
    if sink_name(key) == sink_name(KeyView { session: other_session, generation, execution }) {
        let tail = "."@ + one + "."@ + execution;
        assert(name =~= none + session + tail);
        assert(other_session + "."@ + one + "."@ + execution =~= none + other_session + tail);
        lemma_middle(none, session, other_session, tail);
    }
    if sink_name(key) == sink_name(KeyView { session, generation: other_generation, execution }) {
        let head = session + "."@;
        let tail = "."@ + execution;
        assert(name =~= head + one + tail);
        assert(session + "."@ + two + "."@ + execution =~= head + two + tail);
        lemma_middle(head, one, two, tail);
        lemma_decimal_injective(generation as nat, other_generation as nat);
    }
    if sink_name(key) == sink_name(KeyView { session, generation, execution: other_execution }) {
        let head = session + "."@ + one + "."@;
        assert(name =~= head + execution + none);
        assert(head + other_execution =~= head + other_execution + none);
        lemma_middle(head, execution, other_execution, none);
    }
    if checkpoint_sink_name(session, generation) == checkpoint_sink_name(
        session,
        other_generation,
    ) {
        lemma_middle(session + "."@, one, two, ".checkpoint"@);
        lemma_decimal_injective(generation as nat, other_generation as nat);
    }
}

/// An execution took the time from its start to its end, and captured what its two streams kept; a
/// stream that nobody read counts nothing.
pub proof fn law_receipts_count_time_and_bytes(receipt: ExecutionReceiptView)
    ensures
        receipt.started_at_ms <= receipt.settled_at_ms ==> duration(
            receipt.started_at_ms,
            receipt.settled_at_ms,
        ) == receipt.settled_at_ms - receipt.started_at_ms,
        receipt.stdout is Some && receipt.stderr is Some ==> captured_of(receipt)
            == receipt.stdout->Some_0.captured_bytes + receipt.stderr->Some_0.captured_bytes,
        receipt.stdout is None && receipt.stderr is None ==> captured_of(receipt) == 0,
        receipt.stdout is Some && receipt.stderr is None ==> captured_of(receipt)
            == receipt.stdout->Some_0.captured_bytes,
        receipt.stdout is None && receipt.stderr is Some ==> captured_of(receipt)
            == receipt.stderr->Some_0.captured_bytes,
{
}

/// An image is started only where its bounds are in order and its working root is an absolute path
/// to a directory.
pub proof fn law_images_work_in_a_directory(spec: SpecView, root_is_dir: bool)
    requires
        spec_fault(spec, root_is_dir) is None,
    ensures
        session_bounds_fault(spec.bounds) is None,
        root_is_dir,
        crate::program::is_absolute(spec.working_root),
        crate::program::program_path_fault(spec.program) is None,
{
}

} // verus!
