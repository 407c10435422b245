use sophon_sdk::artifact::{ArtifactDigest, ArtifactHandle};
use sophon_sdk::kernel::custody::{
    after_execution, as_i64, bind_checkpoint, check_checkpoint, check_payload, checkpoint_identity,
    decide_reconcile, decide_submit, execution_end, execution_receipt, frame_body, inspect_session,
    known_execution, look_at_execution, plan_restore, read_snapshot, refuse_absent,
    requiring_reconciliation, settle_execution, settle_restore, settle_session, sink_identity, stored_generation,
    AfterExecution, LiveSession, ReconcileStep, RestorePlan, SpecRecord, StopCause,
    StoredIncarnation, StoredKernelExecution, SubmissionRecord, SubmitDecision, WaitStep,
};
use sophon_sdk::kernel::fixture::{
    directive, ends_body, frame, refuse_directive, Directive, FixtureState, FixtureStatus,
    FixtureStep,
};
use sophon_sdk::kernel::frame::{FrameReader, FrameStatus};
use sophon_sdk::kernel::receipt::{
    KernelDisposition, KernelExecutionDisposition, KernelRestore, KernelSessionStatus,
    NonRestorableFact, RestorableFact,
};
use sophon_sdk::kernel::snapshot::{parse_loss, parse_snapshot};
use sophon_sdk::kernel::spec::{KernelSpec, KernelSubmission};
use sophon_sdk::kernel::{
    KernelError, KernelExecutionBounds, KernelExecutionId, KernelExecutionKey, KernelGeneration,
    KernelLabel, KernelSessionBounds, KernelSessionId, LOCAL_KERNEL_PROTOCOL,
};
use sophon_sdk::program::custody::{bind_capture, BoundedCapture};
use sophon_sdk::program::{CaptureRecord, Liveness, ProgramLabel, ProgramPath, ProgramStream};

fn session() -> KernelSessionId {
    KernelSessionId::new("session").unwrap()
}

fn key(execution: &str) -> KernelExecutionKey {
    KernelExecutionKey::new(
        session(),
        KernelGeneration::first(),
        KernelExecutionId::new(execution).unwrap(),
    )
    .unwrap()
}

fn spec() -> KernelSpec {
    KernelSpec::new(
        ProgramPath::new("/bin/kernel").unwrap(),
        KernelLabel::new(LOCAL_KERNEL_PROTOCOL).unwrap(),
        "/w",
        KernelSessionBounds::new(1_000, 2, 64).unwrap(),
    )
    .unwrap()
}

fn submission() -> KernelSubmission {
    KernelSubmission::new("set a 1", KernelExecutionBounds::new(100, 16, 16).unwrap()).unwrap()
}

fn live(executions: u64) -> LiveSession {
    LiveSession {
        generation: KernelGeneration::first(),
        spec_digest: spec().spec_digest(),
        bounds: KernelSessionBounds::new(1_000, 2, 64).unwrap(),
        executions,
        last_activity_ms: 10,
        in_flight: None,
    }
}

#[test]
fn submissions_number_their_executions_without_gaps() {
    match decide_submit(&key("e-1"), &submission(), Ok(live(0)), 20).unwrap() {
        SubmitDecision::Run { sequence, record, frame } => {
            assert_eq!(sequence, 1);
            assert!(record.source_digest.same(&submission().source_digest()));
            assert!(frame.contains("set a 1"));
        }
        _ => panic!("an idle session runs what is submitted"),
    }
    assert!(matches!(
        decide_submit(&key("e-2"), &submission(), Ok(live(1)), 20),
        Ok(SubmitDecision::Run { sequence: 2, .. })
    ));
    assert!(matches!(
        decide_submit(&key("e-3"), &submission(), Ok(live(2)), 20),
        Ok(SubmitDecision::Ceiling)
    ));
    assert!(matches!(
        decide_submit(&key("e-1"), &submission(), Ok(live(0)), 5_000),
        Ok(SubmitDecision::Expire)
    ));
    let mut busy = live(1);
    busy.in_flight = Some(KernelExecutionId::new("e-1").unwrap());
    assert!(matches!(
        decide_submit(&key("e-2"), &submission(), Ok(busy), 20),
        Err(KernelError::Conflict(_))
    ));
    assert!(matches!(known_execution(&key("e-1")), KernelError::Conflict(_)));
}

#[test]
fn environment_names_are_kept_off_a_kernel() {
    assert!(spec().environment("LANG", "C").unwrap().validate(true).is_ok());
    assert!(spec().environment("", "C").is_err());
    assert!(spec().environment("A=B", "C").is_err());
    assert!(spec().reserving("HOST_TOKEN").unwrap().environment("host_token", "x").is_err());
    assert!(spec().validate(false).is_err());
    assert!(spec().argument("one").unwrap().validate(true).is_ok());
    assert!(spec().ensure_protocol().is_ok());
    let other = spec().argument("one").unwrap();
    assert!(!other.spec_digest().same(&spec().spec_digest()));
}

#[test]
fn images_that_differ_in_one_field_have_other_digests() {
    let base = || spec().argument("a").unwrap().environment("NAME", "value").unwrap();
    let others = [
        spec().argument("a").unwrap(),
        spec().argument("a").unwrap().argument("NAME").unwrap(),
        spec().argument("a").unwrap().environment("NAME", "other").unwrap(),
        spec().argument("aNAME").unwrap().environment("NAME", "value").unwrap(),
    ];
    for other in &others {
        assert!(!base().spec_digest().same(&other.spec_digest()));
    }
    assert!(base().spec_digest().same(&base().spec_digest()));
    let kept = base().reserving("TOKEN").unwrap();
    assert!(base().spec_digest().same(&kept.spec_digest()));
}

#[test]
fn session_receipts_are_held_to_their_digest() {
    let settled = |executions: u64| {
        let mut incarnation = stored();
        incarnation.executions = executions;
        settle_session(
            &session(),
            incarnation,
            &vec![],
            &vec![],
            &KernelDisposition::Closed,
            &KernelExecutionDisposition::Interrupted,
            60,
        )
        .receipt
    };
    let receipt = settled(1);
    assert!(receipt.verify(&receipt.digest()).is_ok());
    assert!(settled(2).verify(&receipt.digest()).is_err());
    assert_eq!(receipt.duration_ms(), 59);
}

#[test]
fn dispositions_are_read_back_from_their_tokens() {
    let label = || KernelLabel::new("ValueError").unwrap();
    for end in [
        KernelExecutionDisposition::Completed,
        KernelExecutionDisposition::Raised { error_class: label() },
        KernelExecutionDisposition::Cancelled,
        KernelExecutionDisposition::TimedOut,
        KernelExecutionDisposition::KernelDied,
        KernelExecutionDisposition::Interrupted,
    ] {
        assert!(KernelExecutionDisposition::parse(&end.as_token()).unwrap().same(&end));
    }
    for end in [
        KernelDisposition::Closed,
        KernelDisposition::Exited { code: -3 },
        KernelDisposition::IdleExpired,
        KernelDisposition::CeilingReached { ceiling: label() },
        KernelDisposition::Interrupted,
        KernelDisposition::FailedToStart,
    ] {
        assert_eq!(KernelDisposition::parse(&end.as_token()).unwrap(), end);
    }
    assert!(KernelExecutionDisposition::parse("finished").is_err());
    assert!(KernelDisposition::parse("exited:x").is_err());
}

#[test]
fn only_two_clean_frames_make_a_success() {
    let done = || Some(FrameStatus::Done);
    assert!(execution_end(&done(), &done(), None).is_success());
    assert!(!execution_end(&done(), &None, None).is_success());
    assert!(!execution_end(&None, &None, None).is_success());
    let stopped = || Some(FrameStatus::Cancelled);
    assert_eq!(
        execution_end(&stopped(), &stopped(), Some(StopCause::TimedOut)),
        KernelExecutionDisposition::TimedOut
    );
    assert_eq!(
        execution_end(&stopped(), &stopped(), Some(StopCause::Cancelled)),
        KernelExecutionDisposition::Cancelled
    );
    assert_eq!(
        execution_end(&None, &done(), Some(StopCause::TimedOut)),
        KernelExecutionDisposition::KernelDied
    );
}

#[test]
fn frames_do_not_depend_on_how_the_bytes_arrive() {
    let text = frame(&FixtureStatus::Raised("ValueError".to_string()));
    let bytes = [b"out\n".to_vec(), text.as_bytes().to_vec(), b"next".to_vec()].concat();
    let mut whole = FrameReader::new();
    let first = whole.feed(&bytes, 64);
    assert_eq!(first.len(), 1);
    assert_eq!(first[0].capture.content, b"out\n".to_vec());
    assert_eq!(
        first[0].status,
        Some(FrameStatus::Raised(KernelLabel::new("ValueError").unwrap()))
    );
    let mut pieces = FrameReader::new();
    let mut found = Vec::new();
    for byte in &bytes {
        found.extend(pieces.feed(&[*byte], 64));
    }
    assert_eq!(found.len(), 1);
    assert_eq!(found[0].capture.content, first[0].capture.content);
    assert_eq!(found[0].status, first[0].status);
    assert_eq!(whole.finish(64).capture.content, b"next".to_vec());
    assert_eq!(pieces.finish(64).capture.content, b"next".to_vec());
    assert_eq!(FrameStatus::parse("ok"), Ok(FrameStatus::Done));
    assert!(FrameStatus::parse("fine").is_err());
}

#[test]
fn waiting_steps_follow_the_circumstances() {
    assert_eq!(look_at_execution(true, None, true, 500, 100, false), WaitStep::Settle);
    assert_eq!(look_at_execution(false, None, true, 5, 100, false), WaitStep::InterruptCancelled);
    assert_eq!(look_at_execution(false, None, false, 100, 100, false), WaitStep::InterruptTimedOut);
    assert_eq!(
        look_at_execution(false, Some(StopCause::Cancelled), true, 5, 100, true),
        WaitStep::Kill
    );
    assert_eq!(look_at_execution(false, None, false, 5, 100, false), WaitStep::Look);
}

fn capture(stream: ProgramStream, text: &[u8]) -> CaptureRecord {
    let mut content = BoundedCapture::new();
    content.absorb(text, 0, text.len(), 16);
    bind_capture(stream, ArtifactHandle::for_content(text), &content, 16).unwrap()
}

fn record() -> SubmissionRecord {
    SubmissionRecord {
        source_digest: submission().source_digest(),
        spec_digest: spec().spec_digest(),
        bounds: KernelExecutionBounds::new(100, 16, 16).unwrap(),
    }
}

#[test]
fn execution_receipts_are_final() {
    let receipt = execution_receipt(
        &key("e-1"),
        1,
        &record(),
        KernelExecutionDisposition::Completed,
        10,
        5,
        capture(ProgramStream::Stdout, b"out"),
        capture(ProgramStream::Stderr, b""),
    );
    assert_eq!(receipt.duration_ms(), 5);
    assert!(receipt.succeeded());
    assert!(!receipt.truncated());
    assert!(receipt.verify(&receipt.digest()).is_ok());
    assert!(receipt.verify(&ArtifactDigest::of(b"other")).is_err());
    let (kept, written) = settle_execution(None, true, receipt.duplicate()).unwrap();
    assert!(written);
    let (again, written) = settle_execution(Some(kept), false, receipt.duplicate()).unwrap();
    assert!(!written);
    assert_eq!(again, receipt);
    assert!(settle_execution(None, false, receipt).is_err());
    assert_eq!(
        after_execution(&KernelExecutionDisposition::Completed, None, 10, 64),
        AfterExecution::Continue
    );
    assert_eq!(
        after_execution(&KernelExecutionDisposition::Completed, None, 65, 64),
        AfterExecution::Ceiling
    );
    assert!(matches!(
        after_execution(&KernelExecutionDisposition::KernelDied, Some(3), 10, 64),
        AfterExecution::Died(KernelDisposition::Exited { code: 3 })
    ));
}

fn stored() -> StoredIncarnation {
    StoredIncarnation {
        generation: KernelGeneration::first(),
        owner: ProgramLabel::new("owner").unwrap(),
        pid: 7,
        opened_at_ms: 1,
        spec: SpecRecord::of(&spec()),
        executions: 1,
        captured_bytes: 0,
        receipt: None,
    }
}

#[test]
fn orphaned_executions_are_interrupted_and_never_succeed() {
    let pending = StoredKernelExecution {
        key: key("e-1"),
        sequence: 1,
        owner: ProgramLabel::new("owner").unwrap(),
        started_at_ms: 5,
        record: record(),
        receipt: None,
    };
    let settlement = settle_session(
        &session(),
        stored(),
        &vec![pending],
        &vec![],
        &KernelDisposition::Interrupted,
        &KernelExecutionDisposition::Interrupted,
        50,
    );
    assert!(settlement.write);
    assert_eq!(settlement.executions.len(), 1);
    assert!(!settlement.executions[0].succeeded());
    assert_eq!(settlement.receipt.settled_at_ms, 50);
    assert_eq!(decide_reconcile(true, Liveness::Gone), ReconcileStep::Replay);
    assert_eq!(decide_reconcile(false, Liveness::Live), ReconcileStep::StillLive);
    assert_eq!(decide_reconcile(false, Liveness::Unknown), ReconcileStep::Uncertain);
    assert_eq!(decide_reconcile(false, Liveness::Gone), ReconcileStep::Interrupt);
}

#[test]
fn sessions_of_another_owner_are_uncertain() {
    let owner = ProgramLabel::new("owner").unwrap();
    let other = ProgramLabel::new("other").unwrap();
    assert!(matches!(
        inspect_session(stored(), &owner, true),
        Ok(KernelSessionStatus::Live { .. })
    ));
    let foreign = inspect_session(stored(), &other, false).unwrap();
    assert!(matches!(foreign, KernelSessionStatus::Uncertain { .. }));
    assert!(!foreign.is_settled());
    assert!(matches!(refuse_absent(&None, &session()), KernelError::SessionNotFound(_)));
    assert!(matches!(refuse_absent(&Some(foreign), &session()), KernelError::Unowned(_)));
    let recorded = vec![session(), KernelSessionId::new("other").unwrap()];
    let waiting = requiring_reconciliation(&recorded, &vec![session()]);
    assert_eq!(waiting.len(), 1);
    assert_eq!(waiting[0].as_str(), "other");
}

#[test]
fn snapshots_are_tallied_line_by_line() {
    let (kept, lost) = parse_snapshot(
        b"kernel-checkpoint 1\nbind a 1\nbind b 2\nmodule m\nlost open_file 3\n",
    )
    .unwrap();
    assert_eq!(
        kept,
        vec![RestorableFact::Bindings { count: 2 }, RestorableFact::Modules { count: 1 }]
    );
    assert_eq!(lost, vec![NonRestorableFact::OpenFile { count: 3 }]);
    assert!(matches!(parse_snapshot(b"something"), Err(KernelError::Corrupt(_))));
    assert!(matches!(parse_snapshot(&[0xff]), Err(KernelError::Corrupt(_))));
    assert_eq!(
        parse_snapshot(b"kernel-checkpoint 1\nwhat\n"),
        Err(KernelError::Corrupt(
            "a kernel snapshot declares an unknown line \"what\"".to_string()
        ))
    );
    assert!(parse_loss("lost open_file x").is_err());
    assert!(parse_loss("lost").is_err());
    assert_eq!(
        parse_loss("lost foreign_handle db 2").unwrap(),
        NonRestorableFact::ForeignHandle { kind: KernelLabel::new("db").unwrap(), count: 2 }
    );
}

#[test]
fn checkpoints_restore_only_what_they_were_taken_of() {
    let payload = b"kernel-checkpoint 1\nbind a 1\nlost open_file 1\n";
    let mut stdout = FrameReader::new();
    let mut bytes = payload.to_vec();
    bytes.extend(frame(&FixtureStatus::Done).as_bytes());
    let out = stdout.feed(&bytes, 1_000);
    let mut stderr = FrameReader::new();
    let err = stderr.feed(frame(&FixtureStatus::Done).as_bytes(), 1_000);
    let facts = read_snapshot(&out[0], &err[0]).unwrap().unwrap();
    let checkpoint = bind_checkpoint(
        ArtifactHandle::for_content(payload),
        payload,
        &session(),
        &live(1),
        facts,
        77,
    )
    .unwrap();
    assert!(checkpoint.validate().is_ok());
    assert_eq!(checkpoint.after_sequence, 1);
    assert!(check_payload(&checkpoint, Some(payload)).is_ok());
    assert!(check_payload(&checkpoint, Some(b"other")).is_err());
    assert!(check_payload(&checkpoint, None).is_err());
    assert!(matches!(
        plan_restore(&session(), &checkpoint, &spec(), true, &None),
        Err(KernelError::SessionNotFound(_))
    ));
    let settled = settle_session(
        &session(),
        stored(),
        &vec![],
        &vec![],
        &KernelDisposition::Closed,
        &KernelExecutionDisposition::Interrupted,
        60,
    );
    assert!(matches!(
        plan_restore(
            &session(),
            &checkpoint,
            &spec(),
            true,
            &Some(KernelSessionStatus::Settled(settled.receipt))
        ),
        Ok(RestorePlan::Start { generation }) if generation.get() == 2
    ));
    let changed = spec().argument("x").unwrap();
    assert!(matches!(
        plan_restore(&session(), &checkpoint, &changed, true, &None),
        Ok(RestorePlan::Mismatch { .. })
    ));
    match settle_restore(&session(), KernelGeneration::new(2), &checkpoint, &Some(FrameStatus::Done))
        .unwrap()
    {
        KernelRestore::Restored { lost, .. } => assert_eq!(lost.len(), 1),
        _ => panic!("a clean frame restores"),
    }
    assert!(matches!(
        settle_restore(
            &session(),
            KernelGeneration::new(2),
            &checkpoint,
            &Some(FrameStatus::Rejected(KernelLabel::new("why").unwrap()))
        ),
        Ok(KernelRestore::Rejected { .. })
    ));
    assert!(check_checkpoint(&session(), true).is_err());
    assert!(check_checkpoint(&session(), false).is_ok());
}

#[test]
fn identities_are_derived_from_keys() {
    assert_ne!(
        sink_identity(&key("a")).unwrap().as_str(),
        sink_identity(&key("b")).unwrap().as_str()
    );
    assert!(checkpoint_identity(&session(), KernelGeneration::first()).is_ok());
    assert!(KernelSessionId::new("").is_err());
    assert!(KernelGeneration::new(0).validate().is_err());
    assert_eq!(KernelGeneration::new(u64::MAX).next(), None);
    assert!(as_i64(u64::MAX).is_err());
    assert_eq!(stored_generation(3), Ok(KernelGeneration::new(3)));
    assert!(matches!(stored_generation(-1), Err(KernelError::Corrupt(_))));
    assert!(frame_body("exec", "a\nb").contains("a\nb"));
    assert!(KernelExecutionBounds::new(0, 1, 1).is_err());
    assert!(KernelSessionBounds::new(0, 1, 1).is_err());
}

#[test]
fn fixture_snapshots_are_restored() {
    let mut state = FixtureState::new();
    assert_eq!(state.command("set name some value"), FixtureStep::Nothing);
    assert_eq!(state.command("load module-a"), FixtureStep::Nothing);
    assert_eq!(
        state.command("get name"),
        FixtureStep::Write(ProgramStream::Stdout, "name=some value\n".to_string())
    );
    assert_eq!(state.command("sleep 5"), FixtureStep::Sleep(5));
    assert_eq!(state.command("emit-err 4"), FixtureStep::Emit(ProgramStream::Stderr, 4));
    assert_eq!(state.command("die 3"), FixtureStep::Die(3));
    assert_eq!(state.command("raise Boom"), FixtureStep::Raise("Boom".to_string()));
    assert!(matches!(state.command("dance"), FixtureStep::Raise(_)));
    let text = state.snapshot();
    assert!(text.starts_with("kernel-checkpoint 1\n"));
    let body: Vec<String> = text.lines().map(|line| line.to_string()).collect();
    let mut fresh = FixtureState::new();
    assert_eq!(fresh.restore(&body), FixtureStatus::Done);
    assert_eq!(fresh.snapshot(), text);
    assert!(matches!(
        fresh.restore(&vec!["nonsense".to_string()]),
        FixtureStatus::Rejected(_)
    ));
}

#[test]
fn directives_are_read_behind_their_mark() {
    assert_eq!(directive("\u{1e}\u{1e}exec"), Directive::Exec);
    assert_eq!(directive("\u{1e}\u{1e}close"), Directive::Close);
    assert_eq!(directive("exec"), Directive::Unframed);
    assert_eq!(directive("\u{1e}\u{1e}jump"), Directive::Unknown("jump".to_string()));
    assert!(ends_body("\u{1e}\u{1e}end"));
    assert!(!ends_body("end"));
    assert_eq!(frame(&FixtureStatus::Done), "\u{1e}\u{1e}done ok\n");
    assert_eq!(
        refuse_directive(&Directive::Unframed),
        FixtureStatus::Rejected("unframed-input".to_string())
    );
}

#[test]
fn the_order_of_bindings_does_not_change_a_digest() {
    let one = spec().environment("FIRST", "1").unwrap().environment("SECOND", "2").unwrap();
    let other = spec().environment("SECOND", "2").unwrap().environment("FIRST", "1").unwrap();
    assert!(one.spec_digest().same(&other.spec_digest()));
    let swapped = spec().environment("FIRST", "2").unwrap().environment("SECOND", "1").unwrap();
    assert!(!one.spec_digest().same(&swapped.spec_digest()));
}

#[test]
fn whatever_lines_were_run_a_restore_undoes_the_snapshot() {
    let mut state = FixtureState::new();
    for line in ["set a b c", "set a\r d", "unserialisable socket\r x", "load m n", "set only"] {
        state.command(line);
    }
    let text = state.snapshot();
    let body: Vec<String> = text.lines().map(|line| line.to_string()).collect();
    let mut fresh = FixtureState::new();
    assert_eq!(fresh.restore(&body), FixtureStatus::Done);
    assert_eq!(
        fresh.command("get a\r"),
        FixtureStep::Write(ProgramStream::Stdout, "a\r=d\n".to_string())
    );
    assert_eq!(
        fresh.command("get a"),
        FixtureStep::Write(ProgramStream::Stdout, "a=b c\n".to_string())
    );
}
