use sophon_sdk::session::evidence::{
    accept_evidence, binding_identity, check_ledger_size, decide_record, settle_commit,
    turn_binding_status, BindingDecision, EvidenceCommit, EvidenceVersion, RecordDecision,
    SessionBinding, TurnBindingKey, TurnBindingReceipt, MAX_LEDGER_BYTES,
};
use sophon_sdk::session::files::{ledger_file, rewind_intent_file, rewind_receipt_file};
use sophon_sdk::session::journal::{
    observe_journal_snapshot, observe_known_journal, probe_session_replay, EventJournal,
    ResidentBinding,
};
use sophon_sdk::session::ledger::{
    ledger_settlement_id, mark_turn_discarded, reserve_turn, settle_turn, LedgerTurnState,
    SessionLedger, SessionLedgerEntry,
};
use sophon_sdk::session::lifecycle::{plan_worker, FirstWord, LifecycleOutcome};
use sophon_sdk::session::notice::{
    session_notification, EventUpdate, MessageContent, PlanItem, SessionNotice, ToolChange,
};
use sophon_sdk::session::prompt::{
    turn_outcome, ActiveTurns, PromptAction, PromptEvent, PromptMachine, PromptRequest, StopReason,
};
use sophon_sdk::session::rewind::{
    check_executed, native_rewind_already_applied, plan_rewind, rewind_status,
    ConversationRewindStatus, RewindAction, RewindEvent, RewindMachine, RewindPointWire,
    RewindRequest, RewindResultWire,
};
use sophon_sdk::session::route::{
    check, check_extension, check_extension_notification, check_model, check_route, model_entry,
    plan_fork, report_setup_failure, route_meta, session_meta, settle_detach, settle_unload,
    shutdown_report, validate, ApiBackend, ForkCircumstances, ModelSpec, RuntimeConfig,
    SessionConfig,
};
use sophon_sdk::session::{
    env_bool, full_commit, require_resident, source_provenance, stamp_build, Error, SessionId,
    TurnOutcome,
};

#[test]
fn provenance_is_exact_and_never_unknown() {
    let provenance = source_provenance(
        "0123456789abcdef0123456789abcdef01234567",
        "89abcdef0123456789abcdef0123456789abcdef\n",
        "0.1.0",
        "false",
    );
    assert_eq!(provenance.upstream_release, "1.0.0");
    assert_eq!(provenance.facade_version, "0.1.0");
    assert_eq!(provenance.fork_commit.len(), 40);
    assert!(provenance.fork_commit.bytes().all(|byte| byte.is_ascii_hexdigit()));
    assert_eq!(provenance.upstream_source_rev.len(), 40);
    assert!(provenance.upstream_source_rev.bytes().all(|byte| byte.is_ascii_hexdigit()));
    assert!(!provenance.dirty);
    assert!(!full_commit("unknown"));
    assert_eq!(env_bool("true"), Some(true));
    assert_eq!(env_bool("maybe"), None);
}

fn model() -> ModelSpec {
    ModelSpec {
        id: "test-model".to_string(),
        context_window: 131072,
        api_backend: ApiBackend::ChatCompletions,
        supports_reasoning: true,
        default_reasoning: Some("high".to_string()),
        reasoning_options: vec!["high".to_string(), "xhigh".to_string()],
    }
}

fn runtime_config(endpoint: String) -> RuntimeConfig {
    RuntimeConfig {
        endpoint,
        api_key: "test-key".to_string(),
        grok_home: "/tmp/home".to_string(),
        session_storage: "/tmp/sessions".to_string(),
        models: vec![model()],
    }
}

#[test]
fn rejects_missing_endpoint_before_starting_worker() {
    let result = validate(&runtime_config(String::new()));
    assert!(matches!(result, Err(Error::InvalidConfig(_))));
    assert!(validate(&runtime_config("http://localhost".to_string())).is_ok());
    let mut windowless = runtime_config("http://localhost".to_string());
    windowless.models[0].context_window = 0;
    assert_eq!(
        validate(&windowless),
        Err(Error::InvalidConfig("model id and non-zero context window are required".to_string()))
    );
}

fn completed(turn: &str, digest: &str, index: u64) -> SessionLedgerEntry {
    SessionLedgerEntry {
        turn_id: turn.to_string(),
        prompt_digest: digest.to_string(),
        runtime_prompt_index: index,
        state: LedgerTurnState::Completed {
            outcome: TurnOutcome::End,
            settlement_id: format!("settlement-{index}"),
        },
    }
}

fn point(index: u64, digest: &str) -> RewindPointWire {
    RewindPointWire {
        prompt_index: index,
        created_at: "2026-08-07T00:00:00Z".to_string(),
        num_file_snapshots: 0,
        has_file_changes: false,
        prompt_preview: None,
        origin_prompt_digest: Some(digest.to_string()),
    }
}

#[test]
fn pending_rewind_never_guesses_from_prompt_count_when_prefix_identity_drifted() {
    let ledger = SessionLedger { entries: vec![completed("turn-0", "sha256:expected", 0)] };
    let drifted = point(0, "sha256:other");
    assert!(native_rewind_already_applied(&vec![drifted], 1, &ledger).is_err());
    assert_eq!(
        native_rewind_already_applied(&vec![point(0, "sha256:expected")], 1, &ledger),
        Ok(true)
    );
}

#[test]
fn session_replay_probe_observes_an_empty_retained_journal_exactly() {
    let gap = observe_journal_snapshot(None, 5, 0).expect("empty suffix is observable");
    assert_eq!(gap.oldest_retained_sequence, 6);
    assert_eq!(gap.inclusive_end_sequence, 5);
    assert_eq!(gap.retained_count, 0);
    assert!(gap.truncated);
    assert!(gap.events.is_empty());

    let empty = observe_journal_snapshot(None, 5, 5).expect("end cursor is valid");
    assert_eq!(empty.oldest_retained_sequence, 6);
    assert_eq!(empty.inclusive_end_sequence, 5);
    assert_eq!(empty.retained_count, 0);
    assert!(!empty.truncated);
    assert!(empty.events.is_empty());
    assert!(observe_journal_snapshot(None, 5, 6).is_err());
}

#[test]
fn journals_replay_everything_behind_a_cursor() {
    let mut journal = EventJournal::new(&SessionId::from_stored("s"));
    journal.emit(EventUpdate::SessionStarted, None);
    journal.emit(EventUpdate::AssistantText("hi".to_string()), Some("t".to_string()));
    assert!(journal.relay(EventUpdate::SessionClosed, true, None).is_none());
    assert_eq!(journal.inclusive_end_sequence(), 2);
    let replay = journal.events_after(true, 1).unwrap();
    assert_eq!(replay.len(), 1);
    assert_eq!(replay[0].sequence, 2);
    assert_eq!(replay[0].turn_id, Some("t".to_string()));
    assert_eq!(journal.events_after(true, 2).unwrap().len(), 0);
    assert!(journal.events_after(true, 3).is_err());
    assert!(journal.events_after(false, 0).is_err());
    let seen = journal.observe_journal(0).unwrap();
    assert_eq!(seen.oldest_retained_sequence, 1);
    assert_eq!(seen.retained_count, 2);
    assert!(!seen.truncated);
}

#[test]
fn turns_are_reserved_one_at_a_time_and_settled() {
    let empty = SessionLedger::default();
    let (mut ledger, index) = reserve_turn(&empty, "turn-0", "sha256:a").unwrap();
    assert_eq!(index, 0);
    assert!(ledger.any_pending());
    assert!(reserve_turn(&ledger, "turn-1", "sha256:b").is_err());
    let id = ledger_settlement_id("s", "turn-0", "sha256:a", 0, TurnOutcome::End);
    assert!(id.starts_with("sha256:"));
    assert_ne!(id, ledger_settlement_id("s", "turn-0", "sha256:a", 0, TurnOutcome::Cancelled));
    assert_ne!(id, ledger_settlement_id("s", "turn-0", "sha256:a", 1, TurnOutcome::End));
    settle_turn(&mut ledger, TurnOutcome::End, &id);
    assert!(!ledger.any_pending());
    let (next, index) = reserve_turn(&ledger, "turn-1", "sha256:b").unwrap();
    assert_eq!(index, 1);
    let discarded = mark_turn_discarded(&next, true, false, "turn-1", "sha256:b", 1).unwrap();
    assert!(discarded.entries[1].state.is_discarded());
    assert_eq!(discarded.entries[0], ledger.entries[0]);
    assert!(mark_turn_discarded(&next, false, false, "turn-1", "sha256:b", 1).is_err());
    assert!(mark_turn_discarded(&next, true, true, "turn-1", "sha256:b", 1).is_err());
    assert!(mark_turn_discarded(&next, true, false, "turn-1", "sha256:x", 1).is_err());
    assert_eq!(discarded.active(), 1);
}

#[test]
fn a_prompt_settles_its_turn() {
    let machine = PromptMachine::new(PromptRequest {
        session_id: "s".to_string(),
        turn_id: "turn-0".to_string(),
        prompt_digest: "sha256:a".to_string(),
    });
    let (machine, action) = machine
        .step(PromptEvent::Ledger { resident: true, ledger: SessionLedger::default() })
        .unwrap();
    assert!(matches!(&action, PromptAction::SaveLedger(l) if l.any_pending()));
    let (machine, action) = machine.step(PromptEvent::LedgerSaved).unwrap();
    assert!(matches!(action, PromptAction::Send));
    let (machine, action) = machine.step(PromptEvent::Stopped(StopReason::EndTurn)).unwrap();
    assert!(matches!(action, PromptAction::Sync));
    let (machine, action) = machine.step(PromptEvent::Synced).unwrap();
    assert!(matches!(&action, PromptAction::SaveLedger(l) if l.entries[0].state.is_completed()));
    let (machine, action) = machine.step(PromptEvent::LedgerSaved).unwrap();
    assert!(matches!(action, PromptAction::Announce(TurnOutcome::End)));
    let (_, action) = machine.step(PromptEvent::Announced { final_sequence: Some(7) }).unwrap();
    match action {
        PromptAction::Finish(receipt) => {
            assert_eq!(receipt.final_sequence, 7);
            assert_eq!(receipt.runtime_prompt_index, 0);
            assert_eq!(receipt.outcome, TurnOutcome::End);
            assert_eq!(
                receipt.settlement_id,
                ledger_settlement_id("s", "turn-0", "sha256:a", 0, TurnOutcome::End)
            );
        }
        _ => panic!("the prompt ends with its receipt"),
    }
    assert!(turn_outcome(StopReason::Other).is_err());
    assert_eq!(turn_outcome(StopReason::Refusal), Ok(TurnOutcome::Refusal));
}

#[test]
fn prompts_of_absent_sessions_are_refused() {
    let machine = PromptMachine::new(PromptRequest {
        session_id: "s".to_string(),
        turn_id: "turn-0".to_string(),
        prompt_digest: "sha256:a".to_string(),
    });
    assert!(machine
        .step(PromptEvent::Ledger { resident: false, ledger: SessionLedger::default() })
        .is_err());
    assert_eq!(
        require_resident(false),
        Err(Error::Operation("session is not resident".to_string()))
    );
}

#[test]
fn one_turn_runs_in_a_session_and_a_cancelled_one_is_dropped() {
    let mut turns = ActiveTurns::new();
    assert!(turns.reserve("s", "t").is_ok());
    assert!(turns.reserve("s", "u").is_err());
    assert_eq!(turns.turn_of("s"), Some("t".to_string()));
    assert!(turns.settle_cancel("s", None, false).is_err());
    assert!(!turns.is_active("s"));
    assert!(turns.reserve("s", "u").is_ok());
    turns.release("s");
    assert!(!turns.is_active("s"));
}

fn rewind_request(target: u64) -> RewindRequest {
    RewindRequest {
        session_id: "s".to_string(),
        operation_id: "op".to_string(),
        target_prompt_index: target,
        unsettled: None,
    }
}

fn two_turns() -> SessionLedger {
    SessionLedger {
        entries: vec![completed("turn-0", "sha256:a", 0), completed("turn-1", "sha256:b", 1)],
    }
}

fn executed(target: u64, digest: &str) -> RewindResultWire {
    RewindResultWire {
        success: true,
        target_prompt_index: target,
        mode: "conversation_only".to_string(),
        reverted_files: vec![],
        clean_files: vec![],
        conflicts: vec![],
        prompt_text_digest: Some(digest.to_string()),
        error: None,
    }
}

#[test]
fn a_rewind_notes_its_intent_before_any_native_work() {
    let machine = RewindMachine::new(rewind_request(1));
    let (machine, action) = machine
        .step(RewindEvent::Status {
            resident: true,
            active: false,
            status: ConversationRewindStatus::Absent,
        })
        .unwrap();
    assert!(matches!(action, RewindAction::LoadLedger));
    let (machine, action) = machine.step(RewindEvent::Ledger(two_turns())).unwrap();
    let intent = match action {
        RewindAction::SaveIntent(intent) => intent,
        _ => panic!("the intent comes first"),
    };
    assert_eq!(intent.target_turn_id, "turn-1");
    assert_eq!(intent.target_prompt_digest, "sha256:b");
    let (machine, action) = machine.step(RewindEvent::IntentSaved).unwrap();
    assert!(matches!(action, RewindAction::ReadPoints));
    let (machine, action) = machine
        .step(RewindEvent::Points(vec![point(0, "sha256:a"), point(1, "sha256:b")]))
        .unwrap();
    assert!(matches!(action, RewindAction::Execute { target_prompt_index: 1 }));
    let (machine, action) =
        machine.step(RewindEvent::Executed(executed(1, "sha256:b"))).unwrap();
    assert!(matches!(action, RewindAction::Sync));
    let (machine, action) = machine.step(RewindEvent::Synced).unwrap();
    assert!(matches!(&action, RewindAction::SaveLedger(l)
        if l.entries[1].state.is_discarded() && l.entries[0].state.is_completed()));
    let (machine, action) = machine.step(RewindEvent::LedgerSaved).unwrap();
    assert!(matches!(&action, RewindAction::SaveReceipt(r) if r.operation_id == "op"));
    let (machine, action) = machine.step(RewindEvent::ReceiptSaved).unwrap();
    assert!(matches!(action, RewindAction::RemoveIntent { .. }));
    let (_, action) = machine.step(RewindEvent::IntentRemoved).unwrap();
    assert!(matches!(&action, RewindAction::Finish(r) if *r == intent.receipt()));
}

#[test]
fn an_applied_rewind_answers_with_its_receipt_and_no_other_target() {
    let intent = plan_rewind(&rewind_request(1), &None, &two_turns()).unwrap();
    let applied = || ConversationRewindStatus::Applied { receipt: intent.receipt() };
    let (_, action) = RewindMachine::new(rewind_request(1))
        .step(RewindEvent::Status { resident: true, active: false, status: applied() })
        .unwrap();
    assert!(matches!(&action, RewindAction::Finish(r) if *r == intent.receipt()));
    assert!(RewindMachine::new(rewind_request(0))
        .step(RewindEvent::Status { resident: true, active: false, status: applied() })
        .is_err());
    assert!(RewindMachine::new(rewind_request(1))
        .step(RewindEvent::Status { resident: true, active: true, status: applied() })
        .is_err());
    assert!(plan_rewind(&rewind_request(9), &None, &two_turns()).is_err());
}

#[test]
fn receipts_and_intents_answer_only_for_their_own_rewind() {
    let intent = plan_rewind(&rewind_request(1), &None, &two_turns()).unwrap();
    assert_eq!(
        rewind_status("s", "op", None, None).unwrap(),
        ConversationRewindStatus::Absent
    );
    assert!(matches!(
        rewind_status("s", "op", None, Some(intent.duplicate())).unwrap(),
        ConversationRewindStatus::Pending { .. }
    ));
    assert!(matches!(
        rewind_status("s", "op", Some(intent.receipt()), Some(intent.duplicate())).unwrap(),
        ConversationRewindStatus::Applied { .. }
    ));
    assert!(rewind_status("s", "other", Some(intent.receipt()), None).is_err());
    assert!(rewind_status("elsewhere", "op", Some(intent.receipt()), None).is_err());
}

#[test]
fn executed_rewinds_are_held_to_what_was_asked() {
    assert!(check_executed(&executed(1, "sha256:b"), 1, "sha256:b").is_ok());
    assert!(check_executed(&executed(0, "sha256:b"), 1, "sha256:b").is_err());
    assert!(check_executed(&executed(1, "sha256:x"), 1, "sha256:b").is_err());
    let mut failed = executed(1, "sha256:b");
    failed.success = false;
    assert!(check_executed(&failed, 1, "sha256:b").is_err());
    let mut files = executed(1, "sha256:b");
    files.mode = "all".to_string();
    assert!(check_executed(&files, 1, "sha256:b").is_err());
}

#[test]
fn routes_are_held_to_the_catalog() {
    let models = vec![model()];
    assert!(check_model(&models, "test-model", &None).is_ok());
    assert!(check_model(&models, "test-model", &Some("xhigh".to_string())).is_ok());
    assert!(check_model(&models, "test-model", &Some("low".to_string())).is_err());
    assert!(check_model(&models, "other", &None).is_err());
    assert!(check_route(&models, "test-model", &None, true).is_err());
    let config = SessionConfig {
        cwd: "/w".to_string(),
        model: "test-model".to_string(),
        reasoning: None,
    };
    assert!(check(&models, &config, true, true).is_ok());
    assert!(check(&models, &config, true, false).is_err());
    assert!(check(&models, &config, false, true).is_err());
}

#[test]
fn metadata_is_written_field_by_field() {
    assert_eq!(
        route_meta(&Some("high".to_string())).write(),
        "{\"reasoningEffort\":\"high\",\"originRouteOnly\":true}"
    );
    let config = SessionConfig {
        cwd: "/w".to_string(),
        model: "m".to_string(),
        reasoning: None,
    };
    assert_eq!(
        session_meta(&config).write(),
        "{\"modelId\":\"m\",\"reasoningEffort\":null,\"clientIdentifier\":\"origin-forge\",\"yoloMode\":true}"
    );
    assert!(model_entry(&model(), "http://localhost", "key").write().contains("test-model"));
}

#[test]
fn file_names_are_digests() {
    let id = SessionId::from_stored("abc");
    let hex = "ba7816bf8f01cfea414140de5dae2223b00361a396177a9cb410ff61f20015ad";
    assert_eq!(ledger_file(&id), format!("{hex}.json"));
    assert_eq!(rewind_receipt_file("abc"), format!("{hex}.json"));
    assert_eq!(rewind_intent_file("abc"), format!("{hex}.intent.json"));
}

#[test]
fn forks_take_their_leases_in_one_order() {
    let a = SessionId::from_stored("a");
    let b = SessionId::from_stored("b");
    let at = ForkCircumstances {
        create_or_verify: true,
        has_store: true,
        source_resident: false,
        source_held: false,
    };
    let forth = plan_fork(&a, &b, at).unwrap();
    let back = plan_fork(&b, &a, at).unwrap();
    assert_eq!(forth, back);
    assert!(plan_fork(&a, &a, at).is_err());
}

#[test]
fn host_extensions_keep_off_the_lifecycle() {
    assert!(check_extension("origin/session/unload", false, true).is_err());
    assert!(check_extension("x.ai/custom", false, true).is_ok());
    assert!(check_extension_notification("x.ai/custom", true).is_err());
}

#[test]
fn teardown_reports_what_was_left() {
    assert_eq!(settle_unload(true, true), (true, Ok(())));
    assert!(matches!(settle_unload(true, false), (true, Err(_))));
    assert!(matches!(settle_unload(false, true), (false, Err(_))));
    assert!(settle_detach(true, true).is_ok());
    assert!(settle_detach(true, false).is_err());
    assert!(shutdown_report(&vec![]).is_ok());
    assert!(shutdown_report(&vec!["s: stuck".to_string()]).is_err());
    let told = report_setup_failure("no ledger", &Some(Error::Shutdown), &None).describe();
    assert!(told.contains("no ledger"));
}

#[test]
fn workers_are_joined_whatever_their_first_word() {
    let ready = plan_worker(FirstWord::Ready, true);
    assert!(ready.wait_for_owner);
    let abandoned = plan_worker(FirstWord::Ready, false);
    assert!(!abandoned.wait_for_owner && abandoned.request_shutdown);
    let silent = plan_worker(FirstWord::Silence, true);
    assert!(!silent.wait_for_owner);
    assert_eq!(
        LifecycleOutcome::from_result(Err(Error::Operation("x".to_string()))).into_result(),
        Err(Error::Operation("x".to_string()))
    );
    assert_eq!(LifecycleOutcome::of_stop(Ok(()), Ok(())).into_result(), Ok(()));
    assert_eq!(
        LifecycleOutcome::of_stop(Err(Error::Shutdown), Ok(())).into_result(),
        Err(Error::Shutdown)
    );
}

#[test]
fn notices_become_events() {
    assert_eq!(
        session_notification(SessionNotice::AgentMessage(MessageContent::Text("hi".to_string()))),
        EventUpdate::AssistantText("hi".to_string())
    );
    assert!(matches!(
        session_notification(SessionNotice::AgentThought(MessageContent::Other)),
        EventUpdate::Unknown { .. }
    ));
    let change = ToolChange {
        id: "call".to_string(),
        title: None,
        kind: None,
        status: Some("completed".to_string()),
        raw_input: None,
        raw_output: None,
    };
    assert!(matches!(
        session_notification(SessionNotice::ToolCallChange(change)),
        EventUpdate::ToolUpdate(event) if event.id == "call" && event.status == "completed"
    ));
    let plan = vec![PlanItem {
        status: "pending".to_string(),
        priority: "high".to_string(),
        content: "step".to_string(),
    }];
    assert!(matches!(
        session_notification(SessionNotice::Plan(plan)),
        EventUpdate::Plan { summary } if summary.contains("step")
    ));
}

#[test]
fn evidence_is_bounded_and_versioned() {
    assert!(accept_evidence(10, 10, true).is_ok());
    assert!(accept_evidence(11, 10, true).is_err());
    assert!(accept_evidence(10, 10, false).is_err());
    assert!(check_ledger_size(MAX_LEDGER_BYTES).is_ok());
    assert!(check_ledger_size(MAX_LEDGER_BYTES + 1).is_err());
    let version = |n: u64| EvidenceVersion { revision: n, digest: "sha256:d".to_string() };
    assert!(settle_commit(&EvidenceCommit::Committed(version(1)), &version(1)).is_ok());
    assert!(settle_commit(&EvidenceCommit::Committed(version(2)), &version(1)).is_err());
    assert!(settle_commit(&EvidenceCommit::Conflict, &version(1)).is_err());
    assert!(settle_commit(&EvidenceCommit::CommitUnknown, &version(1)).is_err());
    assert_eq!(decide_record(None), Ok(RecordDecision::Store));
    assert_eq!(decide_record(Some(true)), Ok(RecordDecision::AlreadyStored));
    assert!(matches!(decide_record(Some(false)), Err(Error::BindingRecordConflict(_))));
    assert_ne!(binding_identity("a", "bc"), binding_identity("ab", "c"));
}

#[test]
fn bindings_are_recovered_from_exact_receipts() {
    let binding = SessionBinding {
        harness_digest: Some("sha256:h".to_string()),
        model: "m".to_string(),
        reasoning: None,
    };
    let key = TurnBindingKey {
        turn_id: "turn-0".to_string(),
        prompt_digest: "sha256:a".to_string(),
        runtime_prompt_index: 0,
        snapshot_digest: "sha256:h".to_string(),
        model: "m".to_string(),
        reasoning: None,
    };
    let none = SessionLedger::default();
    assert_eq!(
        turn_binding_status(true, "s", Some(&binding), &key, &none, &None, None),
        Ok(BindingDecision::Absent)
    );
    let receipt = TurnBindingReceipt {
        session_id: "s".to_string(),
        turn_id: "turn-0".to_string(),
        prompt_digest: "sha256:a".to_string(),
        runtime_prompt_index: 0,
        snapshot_digest: "sha256:h".to_string(),
        model: "m".to_string(),
        reasoning: None,
        outcome: TurnOutcome::End,
        settlement_id: ledger_settlement_id("s", "turn-0", "sha256:a", 0, TurnOutcome::End),
        usage: "{}".to_string(),
    };
    assert!(key.matches_receipt(&receipt));
    assert!(turn_binding_status(false, "s", Some(&binding), &key, &none, &None, None).is_err());
    assert!(turn_binding_status(true, "s", None, &key, &none, &None, Some(&receipt)).is_err());
}

#[test]
fn errors_are_told_in_words() {
    assert_eq!(
        Error::EventGap { requested: 1, oldest_available: 4, newest: 9 }.describe().is_empty(),
        false
    );
    assert!(Error::InvalidConfig("x".to_string()).describe().ends_with('x'));
    assert!(Error::Operation("y".to_string()).describe().ends_with('y'));
}

#[test]
fn an_interrupted_rewind_is_planned_again_as_it_was() {
    let request = rewind_request(1);
    let intent = plan_rewind(&request, &None, &two_turns()).unwrap();
    assert_eq!(
        plan_rewind(&request, &Some(intent.duplicate()), &two_turns()).unwrap(),
        intent
    );
    let mut discarded = two_turns();
    discarded.entries[1].state = LedgerTurnState::Discarded;
    assert_eq!(plan_rewind(&request, &Some(intent.duplicate()), &discarded).unwrap(), intent);
    assert!(plan_rewind(&request, &None, &discarded).is_err());
}

#[test]
fn a_pending_turn_is_completed_by_its_receipt_once() {
    let binding = SessionBinding {
        harness_digest: Some("sha256:h".to_string()),
        model: "m".to_string(),
        reasoning: None,
    };
    let key = TurnBindingKey {
        turn_id: "turn-0".to_string(),
        prompt_digest: "sha256:a".to_string(),
        runtime_prompt_index: 0,
        snapshot_digest: "sha256:h".to_string(),
        model: "m".to_string(),
        reasoning: None,
    };
    let receipt = TurnBindingReceipt {
        session_id: "s".to_string(),
        turn_id: "turn-0".to_string(),
        prompt_digest: "sha256:a".to_string(),
        runtime_prompt_index: 0,
        snapshot_digest: "sha256:h".to_string(),
        model: "m".to_string(),
        reasoning: None,
        outcome: TurnOutcome::End,
        settlement_id: "settlement".to_string(),
        usage: "{}".to_string(),
    };
    let (pending, _) = reserve_turn(&SessionLedger::default(), "turn-0", "sha256:a").unwrap();
    let settled = match turn_binding_status(
        true,
        "s",
        Some(&binding),
        &key,
        &pending,
        &None,
        Some(&receipt),
    )
    .unwrap()
    {
        BindingDecision::Complete { settled: Some(ledger) } => ledger,
        _ => panic!("the receipt completes the pending turn"),
    };
    assert!(settled.entries[0].state.is_completed());
    let usage = Some("{}".to_string());
    assert_eq!(
        turn_binding_status(true, "s", Some(&binding), &key, &settled, &usage, Some(&receipt)),
        Ok(BindingDecision::Complete { settled: None })
    );
    assert!(matches!(
        turn_binding_status(
            true,
            "s",
            Some(&binding),
            &key,
            &settled,
            &Some("other".to_string()),
            Some(&receipt)
        ),
        Err(Error::BindingRecordConflict(_))
    ));
    let mut discarded = settled.duplicate();
    discarded.entries[0].state = LedgerTurnState::Discarded;
    assert!(matches!(
        turn_binding_status(true, "s", Some(&binding), &key, &discarded, &usage, Some(&receipt)),
        Err(Error::BindingRecordConflict(_))
    ));
}

#[test]
fn builds_are_stamped_with_one_full_commit() {
    let commit = "0123456789abcdef0123456789abcdef01234567";
    let other = "89abcdef0123456789abcdef0123456789abcdef";
    let stamp = stamp_build(Some(commit), Some(commit), Some("1"), Some(false)).unwrap();
    assert_eq!(stamp.commit, commit);
    assert!(stamp.dirty);
    assert!(!stamp_build(None, Some(commit), None, Some(false)).unwrap().dirty);
    assert_eq!(
        stamp_build(Some(other), Some(commit), None, Some(false)).unwrap_err(),
        "SOPHON_SDK_COMMIT does not match the checked-out SDK fork"
    );
    assert_eq!(
        stamp_build(None, None, None, None).unwrap_err(),
        "source archives must set SOPHON_SDK_COMMIT to the exact SDK fork commit"
    );
    assert_eq!(
        stamp_build(Some("main"), None, None, None).unwrap_err(),
        "Sophon SDK fork commit must be a full Git object id"
    );
    assert_eq!(
        stamp_build(Some(commit), None, Some("yes"), None).unwrap_err(),
        "SOPHON_SDK_DIRTY must be one of: 0, 1, false, true"
    );
    assert_eq!(
        stamp_build(Some(commit), None, None, None).unwrap_err(),
        "source archives must set SOPHON_SDK_DIRTY to true or false"
    );
}

#[test]
fn a_replay_probe_shows_the_journal_and_the_ledger() {
    let binding = || {
        Some(ResidentBinding {
            session_id: SessionId::from_stored("s"),
            cwd: "/w".to_string(),
            model: "m".to_string(),
            reasoning: None,
            harness_digest: None,
        })
    };
    let mut journal = EventJournal::new(&SessionId::from_stored("s"));
    journal.emit(EventUpdate::SessionStarted, None);
    let probe =
        probe_session_replay(true, binding(), Some(&journal), 0, two_turns()).unwrap();
    assert_eq!(probe.requested_after_sequence, 0);
    assert_eq!(probe.inclusive_end_sequence, 1);
    assert_eq!(probe.events.len(), 1);
    assert_eq!(probe.ledger, two_turns());
    assert_eq!(probe.binding.cwd, "/w");
    assert!(probe_session_replay(false, binding(), Some(&journal), 0, two_turns()).is_err());
    assert_eq!(
        probe_session_replay(true, None, Some(&journal), 0, two_turns()),
        Err(Error::Operation("session binding is unavailable".to_string()))
    );
    assert_eq!(
        observe_known_journal(None, 0),
        Err(Error::Operation("unknown session event journal".to_string()))
    );
}

#[test]
fn the_journal_ends_with_the_turn_that_the_receipt_names() {
    let id = SessionId::from_stored("s");
    let mut journal = EventJournal::new(&id);
    journal.emit(EventUpdate::SessionStarted, None);
    let event = journal.announce(TurnOutcome::End, "turn-0");
    assert_eq!(event.sequence, 2);
    assert_eq!(event.sequence, journal.inclusive_end_sequence());
    assert_eq!(event.turn_id, Some("turn-0".to_string()));
    assert_eq!(event.update, EventUpdate::TurnFinished(TurnOutcome::End));
    let behind = journal.events_after(true, 1).unwrap();
    assert_eq!(behind, vec![event]);
}

#[test]
fn running_turns_are_listed_by_session() {
    let mut turns = ActiveTurns::new();
    assert_eq!(turns.sessions(), Vec::<String>::new());
    turns.reserve("b", "t").unwrap();
    turns.reserve("a", "u").unwrap();
    assert_eq!(turns.sessions(), vec!["a".to_string(), "b".to_string()]);
    turns.release("b");
    assert_eq!(turns.sessions(), vec!["a".to_string()]);
}

#[test]
fn a_cursor_within_the_sequence_meets_no_gap() {
    let id = SessionId::from_stored("s");
    let mut journal = EventJournal::new(&id);
    for _ in 0..5 {
        journal.emit(EventUpdate::SessionStarted, None);
    }
    for after in 0..=5 {
        let events = journal.events_after(true, after).unwrap();
        let numbers: Vec<u64> = events.iter().map(|event| event.sequence).collect();
        assert_eq!(numbers, (after + 1..=5).collect::<Vec<u64>>());
    }
    assert!(journal.events_after(true, 6).is_err());
}
