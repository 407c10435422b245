use sophon_sdk::artifact::provenance::ArtifactLabel;
use sophon_sdk::artifact::vault::{ArtifactShelf, ArtifactVault};
use sophon_sdk::artifact::{ArtifactDigest, ArtifactHandle};
use sophon_sdk::program::custody::{
    answer_cancel, answer_wait, bind_capture, check_addressed, check_claimed, check_unknown, decode,
    poll_program, reconcile, settle, ArtifactVaultOutputSink, BoundedCapture, ExecutionRow,
    ExecutionStatus, LaunchRecord, PollDecision, ProgramBounds, ReconcileOutcome,
};
use sophon_sdk::program::{
    digest_of_fields, disposition_of, liveness_of, ExecutionId, ExitDisposition, Liveness,
    ProcessIdentity, ProgramError, ProgramLabel, ProgramPath, ProgramStream, SignalAnswer,
};

fn id(value: &str) -> ExecutionId {
    ExecutionId::new(value).unwrap()
}

fn launch() -> LaunchRecord {
    LaunchRecord {
        program: ProgramPath::new("/bin/true").unwrap(),
        arguments_digest: ArtifactDigest::of(b"arguments"),
        environment_digest: ArtifactDigest::of(b"environment"),
        working_root: "/w".to_string(),
        credential_handles: vec![],
        bounds: ProgramBounds {
            deadline_ms: 1_000,
            stdout_capture_bytes: 8,
            stderr_capture_bytes: 8,
        },
    }
}

#[test]
fn captures_do_not_depend_on_how_the_bytes_arrive() {
    let bytes = b"0123456789";
    let mut whole = BoundedCapture::new();
    whole.absorb(bytes, 0, 10, 8);
    let mut pieces = BoundedCapture::new();
    pieces.absorb(bytes, 0, 3, 8);
    pieces.absorb(bytes, 3, 9, 8);
    pieces.absorb(bytes, 9, 10, 8);
    assert_eq!(whole.content, b"01234567".to_vec());
    assert_eq!(whole.content, pieces.content);
    assert_eq!(whole.produced_bytes, 10);
    assert_eq!(pieces.produced_bytes, 10);
    let record = bind_capture(
        ProgramStream::Stdout,
        ArtifactHandle::for_content(b"01234567"),
        &whole,
        8,
    )
    .unwrap();
    assert!(record.truncated);
    assert_eq!(record.captured_bytes, 8);
    assert!(bind_capture(ProgramStream::Stdout, ArtifactHandle::for_content(b"x"), &whole, 8)
        .is_err());
}

#[test]
fn sinks_keep_what_was_captured() {
    let mut sink = ArtifactVaultOutputSink::new(
        ArtifactShelf::new(),
        ArtifactLabel::new("producer").unwrap(),
    );
    let handle = sink.store(&id("e"), ProgramStream::Stderr, b"abc", 5).unwrap();
    assert!(handle.addresses(b"abc"));
    assert!(sink.vault().inspect(handle.id()).unwrap().is_some());
}

#[test]
fn settlements_are_final_and_receipts_verify() {
    let exited = ExitDisposition::Exited { code: 0 };
    let receipt = launch().receipt(&id("e"), exited, 10, 20, None, None);
    let digest = receipt.digest();
    assert!(receipt.verify(&digest).is_ok());
    let later = launch().receipt(&id("e"), ExitDisposition::Cancelled, 10, 30, None, None);
    assert!(later.verify(&digest).is_err());
    let (kept, written) = settle(None, true, receipt.duplicate()).unwrap();
    assert!(written);
    assert_eq!(kept, receipt);
    let (kept, written) = settle(Some(receipt.duplicate()), false, later.duplicate()).unwrap();
    assert!(!written);
    assert_eq!(kept, receipt);
    assert!(settle(None, false, later).is_err());
}

fn row() -> ExecutionRow {
    ExecutionRow {
        execution_id: "e".to_string(),
        state: "running".to_string(),
        owner: "owner".to_string(),
        pid: 7,
        started_at_ms: 10,
        launch: Ok(launch()),
        receipt: None,
        receipt_digest: None,
    }
}

#[test]
fn stored_executions_are_decoded_and_reconciled() {
    let owner = ProgramLabel::new("owner").unwrap();
    let other = ProgramLabel::new("other").unwrap();
    assert!(matches!(
        decode(row()).unwrap().into_status(&owner),
        Ok(ExecutionStatus::Running { started_at_ms: 10, .. })
    ));
    assert!(matches!(
        decode(row()).unwrap().into_status(&other),
        Ok(ExecutionStatus::Uncertain { .. })
    ));
    assert_eq!(
        reconcile(decode(row()).unwrap(), Liveness::Live, 50),
        ReconcileOutcome::StillRunning
    );
    assert_eq!(
        reconcile(decode(row()).unwrap(), Liveness::Unknown, 50),
        ReconcileOutcome::Uncertain
    );
    assert!(matches!(
        reconcile(decode(row()).unwrap(), Liveness::Gone, 50),
        ReconcileOutcome::Settled(receipt)
            if receipt.disposition == ExitDisposition::Interrupted && receipt.settled_at_ms == 50
    ));
    let stored = decode(row()).unwrap();
    assert!(check_addressed(&stored, &id("e")).is_ok());
    assert_eq!(
        check_addressed(&stored, &id("f")),
        Err(ProgramError::Corrupt("a stored execution does not address its own key".to_string()))
    );
    let mut negative = row();
    negative.pid = -1;
    assert!(matches!(decode(negative), Err(ProgramError::Corrupt(_))));
    let mut unreadable = row();
    unreadable.launch = Err("no launch".to_string());
    assert!(matches!(decode(unreadable), Err(ProgramError::Corrupt(_))));
    let mut settled = row();
    settled.state = "settled".to_string();
    assert!(matches!(decode(settled), Err(ProgramError::Corrupt(_))));
}

#[test]
fn running_programs_are_stopped_by_cancellation_and_deadline() {
    assert_eq!(poll_program(true, false, 20, 10), PollDecision::Settle { stopped: None });
    assert_eq!(
        poll_program(false, true, 0, 10),
        PollDecision::Kill { stopped: ExitDisposition::Cancelled }
    );
    assert_eq!(
        poll_program(false, false, 10, 10),
        PollDecision::Kill { stopped: ExitDisposition::TimedOut }
    );
    assert_eq!(poll_program(false, false, 9, 10), PollDecision::Wait);
}

#[test]
fn process_facts_are_mapped_one_for_one() {
    assert_eq!(liveness_of(SignalAnswer::Delivered), Liveness::Live);
    assert_eq!(liveness_of(SignalAnswer::NoSuchProcess), Liveness::Gone);
    assert_eq!(liveness_of(SignalAnswer::NotPermitted), Liveness::Live);
    assert_eq!(disposition_of(Some(9), None), ExitDisposition::Signalled { signal: 9 });
    assert_eq!(disposition_of(None, Some(3)), ExitDisposition::Exited { code: 3 });
    assert!(ProcessIdentity::new(0, ProgramLabel::new("o").unwrap()).is_err());
    assert!(ProgramPath::new("relative").is_err());
    assert!(ExecutionId::new("").is_err());
    let tokens: Vec<String> = [
        ExitDisposition::Exited { code: 1 },
        ExitDisposition::Exited { code: -1 },
        ExitDisposition::Signalled { signal: 1 },
        ExitDisposition::Cancelled,
        ExitDisposition::TimedOut,
        ExitDisposition::Interrupted,
    ]
    .iter()
    .map(|end| end.as_token())
    .collect();
    for (i, token) in tokens.iter().enumerate() {
        assert!(!tokens[..i].contains(token));
    }
    let ab = vec!["ab".to_string(), "c".to_string()];
    let a = vec!["a".to_string(), "bc".to_string()];
    assert!(!digest_of_fields(&ab).same(&digest_of_fields(&a)));
}

#[test]
fn executions_of_other_handles_are_answered_from_what_is_stored() {
    let owner = ProgramLabel::new("owner").unwrap();
    let running = || Some(decode(row()).unwrap().into_status(&owner).unwrap());
    let receipt =
        || launch().receipt(&id("e"), ExitDisposition::Exited { code: 0 }, 10, 20, None, None);
    let settled = Some(ExecutionStatus::Settled(receipt()));
    let unowned = ProgramError::Unowned("e".to_string());
    let missing = ProgramError::NotFound("e".to_string());
    assert_eq!(answer_cancel(&settled, &id("e")), Ok(()));
    assert_eq!(answer_cancel(&running(), &id("e")), Err(unowned));
    assert_eq!(answer_cancel(&None, &id("e")), Err(missing));
    assert_eq!(answer_wait(settled, &id("e")), Ok(receipt()));
    assert_eq!(answer_wait(running(), &id("e")), Err(ProgramError::Unowned("e".to_string())));
    assert_eq!(answer_wait(None, &id("e")), Err(ProgramError::NotFound("e".to_string())));
}

#[test]
fn an_execution_is_launched_once() {
    let owner = ProgramLabel::new("owner").unwrap();
    let running = Some(decode(row()).unwrap().into_status(&owner).unwrap());
    assert_eq!(check_unknown(&None, &id("e")), Ok(()));
    assert_eq!(
        check_unknown(&running, &id("e")),
        Err(ProgramError::Conflict(
            "execution e is already known to this authority".to_string()
        ))
    );
    assert_eq!(check_claimed(1, &id("e")), Ok(()));
    assert_eq!(
        check_claimed(0, &id("e")),
        Err(ProgramError::Conflict(
            "execution e was durably claimed by another launch".to_string()
        ))
    );
}
