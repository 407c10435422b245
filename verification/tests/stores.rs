use sophon_sdk::evolution::conformance::{run_evolution_store_conformance, EvolutionAuthority};
use sophon_sdk::evolution::edit::{RefinementEdit, RefinementProposal};
use sophon_sdk::evolution::entry::HarnessEntryKind;
use sophon_sdk::evolution::event::RefinementEvent;
use sophon_sdk::evolution::state::EvolutionState;
use sophon_sdk::evolution::store::{
    check_transition, decide_commit, decode_event, decode_state, evolution_commit_reconciled,
    write_transition, EvolutionBook, EvolutionCommit, EvolutionStore, EvolutionStoreError,
};
use sophon_sdk::evolution::HarnessScope;
use sophon_sdk::harness::conformance::run_harness_store_conformance;
use sophon_sdk::harness::snapshot::{HarnessContent, HarnessSnapshot, MAX_HARNESS_SNAPSHOT_BYTES};
use sophon_sdk::harness::store::{
    check_declared, decide_put, decode_snapshot, harness_put_reconciled, write_snapshot,
    HarnessBook, HarnessPut, HarnessStore, HarnessStoreError,
};
use sophon_sdk::schema::{check_schema, SchemaDecision};
use sophon_sdk::session_state::ConformanceOpen;

fn first() -> (EvolutionState, RefinementEvent) {
    let proposal = RefinementProposal::new(
        "summary",
        "rationale",
        "outcome",
        vec![RefinementEdit::create(HarnessEntryKind::Memory, "A Fact", "content", "reason")],
    )
    .unwrap();
    EvolutionState::new(HarnessScope::session("s"))
        .unwrap()
        .apply(&proposal, "test", vec![], 10)
        .unwrap()
}

#[test]
fn the_book_passes_the_evolution_suite() {
    assert_eq!(run_evolution_store_conformance(&mut EvolutionBook::new()), Ok(()));
}

#[test]
fn the_book_passes_the_harness_suite() {
    assert_eq!(run_harness_store_conformance(&mut HarnessBook::new()), Ok(()));
}

struct Forgetful {
    inner: EvolutionBook,
}

impl EvolutionStore for Forgetful {
    fn load(
        &mut self,
        scope: &HarnessScope,
    ) -> Result<Option<EvolutionState>, EvolutionStoreError> {
        self.inner.load(scope)
    }

    fn commit(
        &mut self,
        state: &EvolutionState,
        event: &RefinementEvent,
    ) -> Result<EvolutionCommit, EvolutionStoreError> {
        self.inner.commit(state, event)
    }

    fn history(
        &mut self,
        _scope: &HarnessScope,
        _limit: usize,
    ) -> Result<Vec<RefinementEvent>, EvolutionStoreError> {
        Ok(Vec::new())
    }

    fn event(
        &mut self,
        scope: &HarnessScope,
        event_id: &str,
    ) -> Result<Option<RefinementEvent>, EvolutionStoreError> {
        self.inner.event(scope, event_id)
    }
}

impl EvolutionAuthority for Forgetful {
    fn open(&mut self, _phase: ConformanceOpen) -> Result<(), EvolutionStoreError> {
        Ok(())
    }

    fn through(&mut self, _phase: ConformanceOpen) {}

    fn give_up(&mut self) {}
}

#[test]
fn a_store_that_loses_history_fails_the_suite() {
    let result = run_evolution_store_conformance(&mut Forgetful { inner: EvolutionBook::new() });
    assert_eq!(
        result,
        Err(EvolutionStoreError::Corrupt(
            "conformance: a refused commit changed the event history".to_string()
        ))
    );
}

#[test]
fn commits_move_a_ledger_on_by_one_event() {
    let (state, event) = first();
    let scope = HarnessScope::session("s");
    let mut book = EvolutionBook::new();
    assert_eq!(book.commit(&state, &event), Ok(EvolutionCommit::Committed));
    assert_eq!(
        book.commit(&state, &event),
        Ok(EvolutionCommit::RevisionConflict { stored_revision: Some(1) })
    );
    assert_eq!(book.load(&scope).unwrap().unwrap(), state);
    assert_eq!(book.history(&scope, 9).unwrap(), vec![event.duplicate()]);
    assert_eq!(book.history(&scope, 0).unwrap(), vec![]);
    assert_eq!(book.event(&scope, event.event_id()).unwrap().unwrap(), event);
    assert!(book.event(&scope, "sha256:none").unwrap().is_none());
    assert!(book.load(&HarnessScope::Global).unwrap().is_none());
}

#[test]
fn a_commit_must_be_what_its_event_results_in() {
    let (state, event) = first();
    let mut elsewhere = state.duplicate();
    elsewhere.scope = HarnessScope::Global;
    assert_eq!(
        check_transition(&elsewhere, &event),
        Err(EvolutionStoreError::Validation(
            "a commit's state and event address different scopes".to_string()
        ))
    );
    let mut later = state.duplicate();
    later.revision = 2;
    assert_eq!(
        check_transition(&later, &event),
        Err(EvolutionStoreError::Validation(
            "a commit's state revision is not the event's resulting revision".to_string()
        ))
    );
    let mut unknown = state.duplicate();
    unknown.schema_version = 9;
    assert!(matches!(
        check_transition(&unknown, &event),
        Err(EvolutionStoreError::Validation(_))
    ));
    assert_eq!(check_transition(&state, &event), Ok(()));
}

#[test]
fn committed_bytes_are_read_back() {
    let (state, event) = first();
    let written = write_transition(&state, &event).unwrap();
    let scope = HarnessScope::session("s");
    assert_eq!(decode_state(&scope, 1, &written.state).unwrap(), state);
    assert_eq!(decode_event(&written.event).unwrap(), event);
    assert_eq!(
        decode_state(&scope, 2, &written.state),
        Err(EvolutionStoreError::Corrupt(
            "stored evolution state does not address its own scope and revision".to_string()
        ))
    );
    assert!(matches!(decode_event(b"{}"), Err(EvolutionStoreError::Corrupt(_))));
    assert_eq!(
        decode_event(&vec![b' '; 2_097_153]),
        Err(EvolutionStoreError::Corrupt(
            "stored refinement event exceeds its size bound".to_string()
        ))
    );
    assert_eq!(
        decode_state(&scope, 1, &vec![b' '; 2_097_153]),
        Err(EvolutionStoreError::Corrupt(
            "stored evolution state exceeds its size bound".to_string()
        ))
    );
}

#[test]
fn an_absent_ledger_counts_as_revision_zero() {
    assert_eq!(decide_commit(None, 0), EvolutionCommit::Committed);
    assert_eq!(decide_commit(Some(4), 4), EvolutionCommit::Committed);
    assert_eq!(
        decide_commit(None, 1),
        EvolutionCommit::RevisionConflict { stored_revision: None }
    );
}

#[test]
fn unknown_commits_settle_only_on_the_intended_state() {
    let (state, _) = first();
    let other = EvolutionState::new(HarnessScope::session("s")).unwrap();
    let unknown = EvolutionCommit::CommitUnknown;
    assert!(evolution_commit_reconciled(&EvolutionCommit::Committed, &None, &state));
    assert!(evolution_commit_reconciled(&unknown, &Some(state.duplicate()), &state));
    assert!(!evolution_commit_reconciled(&unknown, &Some(other), &state));
    assert!(!evolution_commit_reconciled(&unknown, &None, &state));
    assert!(!evolution_commit_reconciled(
        &EvolutionCommit::RevisionConflict { stored_revision: Some(1) },
        &Some(state.duplicate()),
        &state
    ));
}

#[test]
fn store_errors_are_told_apart_in_words() {
    assert_eq!(
        EvolutionStoreError::Storage("disk".to_string()).describe(),
        "evolution storage failed: disk"
    );
    assert_eq!(
        EvolutionStoreError::Corrupt("x".to_string()).describe(),
        "stored evolution state is corrupt: x"
    );
    assert_eq!(
        EvolutionStoreError::Validation("x".to_string()).describe(),
        "evolution state validation failed: x"
    );
    assert_eq!(
        HarnessStoreError::Storage("disk".to_string()).describe(),
        "harness snapshot storage failed: disk"
    );
    assert_eq!(
        HarnessStoreError::Corrupt("x".to_string()).describe(),
        "stored harness snapshot is corrupt: x"
    );
    assert_eq!(
        HarnessStoreError::Validation("x".to_string()).describe(),
        "harness snapshot validation failed: x"
    );
}

fn snapshot(prompt: &str) -> HarnessSnapshot {
    HarnessSnapshot::new(HarnessContent::new().system_prompt(prompt).rules("rules")).unwrap()
}

#[test]
fn snapshots_are_stored_once_under_their_address() {
    let mut book = HarnessBook::new();
    let made = snapshot("prompt");
    assert_eq!(book.put(&made), Ok(HarnessPut::Stored));
    assert_eq!(book.put(&made), Ok(HarnessPut::AlreadyPresent));
    assert_eq!(book.get(made.digest()).unwrap().unwrap(), made);
    assert_eq!(book.contains(made.digest()), Ok(true));
    assert_eq!(book.contains("sha256:none"), Ok(false));
    assert_eq!(
        decide_put(&Some(snapshot("other")), &made),
        Err(HarnessStoreError::Corrupt(
            "stored content under this digest is not the addressed snapshot".to_string()
        ))
    );
}

#[test]
fn snapshots_are_read_back_and_checked() {
    let made = snapshot("prompt");
    let bytes = write_snapshot(&made).unwrap();
    assert_eq!(decode_snapshot(made.digest(), &bytes).unwrap(), made);
    assert_eq!(
        decode_snapshot("sha256:other", &bytes),
        Err(HarnessStoreError::Corrupt(
            "stored harness snapshot does not address its own key".to_string()
        ))
    );
    assert!(matches!(
        decode_snapshot(made.digest(), b"not json"),
        Err(HarnessStoreError::Corrupt(_))
    ));
    let mut forged = made.duplicate();
    forged.system_prompt = "forged".to_string();
    assert!(matches!(write_snapshot(&forged), Err(HarnessStoreError::Validation(_))));
    assert_eq!(made.digest().len(), 71);
    assert_ne!(
        made.digest(),
        HarnessSnapshot::new(HarnessContent::new().system_prompt("prompt")).unwrap().digest()
    );
    assert!(HarnessSnapshot::new(HarnessContent::new()).is_err());
}

#[test]
fn declared_sizes_are_checked_before_reading() {
    assert!(check_declared(0, 0).is_ok());
    assert!(check_declared(MAX_HARNESS_SNAPSHOT_BYTES as i64, MAX_HARNESS_SNAPSHOT_BYTES as i64)
        .is_ok());
    let over = MAX_HARNESS_SNAPSHOT_BYTES as i64 + 1;
    assert!(check_declared(over, over).is_err());
    assert!(check_declared(-1, -1).is_err());
    assert!(check_declared(4, 5).is_err());
}

#[test]
fn unknown_writes_settle_only_on_the_intended_snapshot() {
    let made = snapshot("prompt");
    let unknown = HarnessPut::CommitUnknown;
    assert!(harness_put_reconciled(&HarnessPut::Stored, &None, &made));
    assert!(harness_put_reconciled(&HarnessPut::AlreadyPresent, &None, &made));
    assert!(harness_put_reconciled(&unknown, &Some(made.duplicate()), &made));
    assert!(!harness_put_reconciled(&unknown, &Some(snapshot("other")), &made));
    assert!(!harness_put_reconciled(&unknown, &None, &made));
}

#[test]
fn schemas_are_initialized_once_and_then_matched() {
    let rows = |marker: &str, version: &str| {
        vec![
            ("schema_marker".to_string(), marker.to_string()),
            ("schema_version".to_string(), version.to_string()),
        ]
    };
    assert_eq!(check_schema(&vec![], false, "m", 1), SchemaDecision::Initialize);
    assert_eq!(check_schema(&vec![], true, "m", 1), SchemaDecision::MissingMetadata);
    assert_eq!(check_schema(&rows("m", "1"), true, "m", 1), SchemaDecision::Accepted);
    assert_eq!(check_schema(&rows("m", "2"), true, "m", 1), SchemaDecision::Mismatch);
    assert_eq!(check_schema(&rows("n", "1"), true, "m", 1), SchemaDecision::Mismatch);
}

#[test]
fn suites_refuse_an_authority_that_is_not_fresh() {
    let mut ledgers = EvolutionBook::new();
    assert_eq!(run_evolution_store_conformance(&mut ledgers), Ok(()));
    assert_eq!(
        ledgers.history(&HarnessScope::session("evolution-conformance"), 9).unwrap().len(),
        3
    );
    assert_eq!(
        run_evolution_store_conformance(&mut ledgers),
        Err(EvolutionStoreError::Corrupt("conformance: fresh authority is not empty".to_string()))
    );
    let mut snapshots = HarnessBook::new();
    assert_eq!(run_harness_store_conformance(&mut snapshots), Ok(()));
    assert_eq!(
        run_harness_store_conformance(&mut snapshots),
        Err(HarnessStoreError::Corrupt("conformance: fresh authority is not empty".to_string()))
    );
}
