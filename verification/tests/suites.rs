use sophon_sdk::activation::book::{ActivationBook, ActivationCoordinator};
use sophon_sdk::activation::conformance::{
    granted, judge_contention, judge_grant, judge_order, judge_refusal, judge_settled,
    judge_single, run_activation_coordinator_conformance, ActivationAuthority,
};
use sophon_sdk::activation::{
    ActivationClaim, ActivationClaimRequest, ActivationDisposition, ActivationError,
    ActivationFencingToken, ActivationGrant, ActivationHandle, ActivationItemId,
    ActivationItemState, ActivationRenewal, ActivationSettlement, ActivationWake,
    ActivationWakeOutcome, ActivationWorkerId,
};
use sophon_sdk::evolution::conformance::{
    judge_stale, run_evolution_store_conformance, EvolutionAuthority,
};
use sophon_sdk::evolution::event::RefinementEvent;
use sophon_sdk::evolution::state::EvolutionState;
use sophon_sdk::evolution::store::{
    EvolutionBook, EvolutionCommit, EvolutionStore, EvolutionStoreError,
};
use sophon_sdk::evolution::HarnessScope;
use sophon_sdk::harness::conformance::{
    judge_contended, judge_repeat, run_harness_store_conformance, HarnessAuthority,
};
use sophon_sdk::harness::snapshot::{HarnessContent, HarnessSnapshot};
use sophon_sdk::harness::store::{HarnessBook, HarnessPut, HarnessStore, HarnessStoreError};
use sophon_sdk::session_state::ConformanceOpen;

#[derive(Clone, Copy, PartialEq)]
enum Vice {
    Nothing,
    GrantsTwice,
    GrantsNothing,
    RefusesOpening(ConformanceOpen),
    ForgetsOnReopen,
}

/// A coordinator with a vice, which notes what is done with its handles.
struct Flawed {
    book: ActivationBook,
    vice: Vice,
    handles: Vec<String>,
    taken: Vec<ActivationGrant>,
}

fn flawed(vice: Vice) -> Flawed {
    Flawed { book: ActivationBook::new(), vice, handles: vec![], taken: vec![] }
}

fn again(grant: &ActivationGrant) -> ActivationGrant {
    ActivationGrant::new(
        ActivationItemId::new(grant.item_id().as_str()).unwrap(),
        ActivationWorkerId::new("conformance-worker-b").unwrap(),
        grant.token(),
        grant.due_at_ms(),
        grant.expires_at_ms(),
        grant.attempt(),
        grant.payload().clone(),
    )
}

impl ActivationCoordinator for Flawed {
    fn wake(
        &mut self,
        request: &ActivationWake,
        now_ms: u64,
    ) -> Result<ActivationWakeOutcome, ActivationError> {
        self.book.wake(request, now_ms)
    }

    fn claim_due(
        &mut self,
        request: &ActivationClaimRequest,
    ) -> Result<Vec<ActivationGrant>, ActivationError> {
        if self.vice == Vice::GrantsNothing {
            return Ok(vec![]);
        }
        let taken = self.book.claim_due(request)?;
        if self.vice == Vice::GrantsTwice {
            if taken.is_empty() {
                return Ok(self.taken.drain(..).collect());
            }
            self.taken = taken.iter().map(again).collect();
        }
        Ok(taken)
    }

    fn claim_item(
        &mut self,
        item_id: &ActivationItemId,
        request: &ActivationClaimRequest,
    ) -> Result<ActivationClaim, ActivationError> {
        self.book.claim_item(item_id, request)
    }

    fn renew(
        &mut self,
        handle: &ActivationHandle,
        lease_ms: u64,
        now_ms: u64,
    ) -> Result<ActivationRenewal, ActivationError> {
        self.book.renew(handle, lease_ms, now_ms)
    }

    fn release(
        &mut self,
        handle: &ActivationHandle,
        disposition: ActivationDisposition,
        now_ms: u64,
    ) -> Result<ActivationSettlement, ActivationError> {
        self.book.release(handle, disposition, now_ms)
    }

    fn inspect(
        &mut self,
        item_id: &ActivationItemId,
    ) -> Result<Option<ActivationItemState>, ActivationError> {
        self.book.inspect(item_id)
    }

    fn purge_settled(&mut self, settled_before_ms: u64) -> Result<usize, ActivationError> {
        self.book.purge_settled(settled_before_ms)
    }
}

impl ActivationAuthority for Flawed {
    fn open(&mut self, phase: ConformanceOpen) -> Result<(), ActivationError> {
        self.handles.push(format!("open {phase:?}"));
        if self.vice == Vice::RefusesOpening(phase) {
            return Err(ActivationError::Storage("no handle".to_string()));
        }
        if self.vice == Vice::ForgetsOnReopen && phase == ConformanceOpen::Reopen {
            self.book = ActivationBook::new();
        }
        Ok(())
    }

    fn through(&mut self, phase: ConformanceOpen) {
        self.handles.push(format!("through {phase:?}"));
    }

    fn give_up(&mut self) {
        self.handles.push("give up".to_string());
    }
}

fn openings(handles: &[String]) -> Vec<&str> {
    handles
        .iter()
        .map(|entry| entry.as_str())
        .filter(|entry| !entry.starts_with("through"))
        .collect()
}

fn corrupt(words: &str) -> Result<(), ActivationError> {
    Err(ActivationError::Corrupt(format!("conformance: {words}")))
}

#[test]
fn the_activation_suite_opens_each_phase_once() {
    let mut authority = flawed(Vice::Nothing);
    assert_eq!(run_activation_coordinator_conformance(&mut authority), Ok(()));
    assert_eq!(
        openings(&authority.handles),
        vec!["open Fresh", "open Concurrent", "give up", "open Reopen"]
    );
}

#[test]
fn a_refused_opening_ends_the_activation_suite() {
    for (phase, made) in [
        (ConformanceOpen::Fresh, vec!["open Fresh"]),
        (ConformanceOpen::Concurrent, vec!["open Fresh", "open Concurrent"]),
        (
            ConformanceOpen::Reopen,
            vec!["open Fresh", "open Concurrent", "give up", "open Reopen"],
        ),
    ] {
        let mut authority = flawed(Vice::RefusesOpening(phase));
        assert_eq!(
            run_activation_coordinator_conformance(&mut authority),
            Err(ActivationError::Storage("no handle".to_string()))
        );
        assert_eq!(openings(&authority.handles), made);
    }
}

#[test]
fn an_item_that_is_granted_twice_or_never_fails_the_activation_suite() {
    assert_eq!(
        run_activation_coordinator_conformance(&mut flawed(Vice::GrantsTwice)),
        corrupt("two supervisors took 2 grants of one due work item; exactly one may execute")
    );
    assert_eq!(
        run_activation_coordinator_conformance(&mut flawed(Vice::GrantsNothing)),
        corrupt("two supervisors took 0 grants of one due work item; exactly one may execute")
    );
}

#[test]
fn a_restart_that_forgets_fails_the_activation_suite() {
    assert_eq!(
        run_activation_coordinator_conformance(&mut flawed(Vice::ForgetsOnReopen)),
        corrupt("activation state did not survive a restart unchanged")
    );
}

fn id(name: &str) -> ActivationItemId {
    ActivationItemId::new(name).unwrap()
}

fn worker(name: &str) -> ActivationWorkerId {
    ActivationWorkerId::new(name).unwrap()
}

fn grant(name: &str, due: u64) -> ActivationGrant {
    ActivationGrant::new(
        id(name),
        worker("w"),
        ActivationFencingToken::new(3),
        due,
        due + 1_000,
        1,
        vec![1, 20],
    )
}

#[test]
fn sweeps_are_judged_by_what_they_granted() {
    assert_eq!(judge_contention(&vec![grant("a", 5)], &vec![]), Ok(true));
    assert_eq!(judge_contention(&vec![], &vec![grant("a", 5)]), Ok(false));
    assert!(judge_contention(&vec![], &vec![]).is_err());
    assert!(judge_contention(&vec![grant("a", 5)], &vec![grant("a", 5)]).is_err());
    let sweep = vec![grant("a", 5), grant("b", 6)];
    assert_eq!(judge_order(&sweep, &id("a"), &id("b"), 6), Ok(()));
    assert_eq!(
        judge_order(&sweep, &id("b"), &id("a"), 6),
        corrupt("a due sweep answered [\"a\", \"b\"] rather than the due items in due order")
    );
    assert_eq!(
        judge_order(&sweep, &id("a"), &id("b"), 5),
        corrupt("a due sweep returned work before its time")
    );
    assert_eq!(judge_single(&vec![grant("a", 5)], &id("a"), "m").unwrap().due_at_ms(), 5);
    assert!(judge_single(&sweep, &id("a"), "m").is_err());
}

#[test]
fn claims_are_judged_by_their_answers() {
    assert_eq!(
        granted(ActivationClaim::NotDue { due_at_ms: 5 }, "not granted").err(),
        corrupt("not granted: answered NotDue { due_at_ms: 5 }").err()
    );
    assert!(granted(ActivationClaim::Granted(grant("a", 5)), "not granted").is_ok());
    let held = ActivationClaim::Held { worker_id: worker("w"), expires_at_ms: 9 };
    assert_eq!(judge_refusal(&held, &worker("w"), 9), Ok(()));
    assert_eq!(
        judge_refusal(&held, &worker("v"), 9),
        corrupt("a refused claim misreported who holds the work item")
    );
    assert_eq!(
        judge_refusal(&ActivationClaim::Granted(grant("a", 5)), &worker("w"), 9),
        corrupt(
            "claiming an item under a live lease answered Granted(ActivationGrant { item_id: \
             ActivationItemId(\"a\"), worker_id: ActivationWorkerId(\"w\"), token: \
             ActivationFencingToken(3), due_at_ms: 5, expires_at_ms: 1005, attempt: 1, payload: \
             [1, 20] }) rather than a refusal"
        )
    );
    assert_eq!(
        granted(held, "not granted").err(),
        corrupt(
            "not granted: answered Held { worker_id: ActivationWorkerId(\"w\"), expires_at_ms: 9 }"
        )
        .err()
    );
    assert_eq!(judge_grant(&grant("a", 5), &id("a"), &worker("w"), &vec![1, 20], 5), Ok(()));
    assert!(judge_grant(&grant("a", 5), &id("a"), &worker("w"), &vec![], 5).is_err());
    assert_eq!(
        judge_settled(&None, 5, ActivationFencingToken::new(3)),
        corrupt("a completed item vanished")
    );
}

struct FlawedLedgers {
    book: EvolutionBook,
    handles: Vec<String>,
    commits: usize,
    unsaid: bool,
    refused: Option<ConformanceOpen>,
}

fn ledgers(unsaid: bool, refused: Option<ConformanceOpen>) -> FlawedLedgers {
    FlawedLedgers { book: EvolutionBook::new(), handles: vec![], commits: 0, unsaid, refused }
}

impl EvolutionStore for FlawedLedgers {
    fn load(
        &mut self,
        scope: &HarnessScope,
    ) -> Result<Option<EvolutionState>, EvolutionStoreError> {
        self.book.load(scope)
    }

    fn commit(
        &mut self,
        state: &EvolutionState,
        event: &RefinementEvent,
    ) -> Result<EvolutionCommit, EvolutionStoreError> {
        self.commits += 1;
        let answer = self.book.commit(state, event)?;
        if self.unsaid {
            return Ok(EvolutionCommit::CommitUnknown);
        }
        Ok(answer)
    }

    fn history(
        &mut self,
        scope: &HarnessScope,
        limit: usize,
    ) -> Result<Vec<RefinementEvent>, EvolutionStoreError> {
        self.book.history(scope, limit)
    }

    fn event(
        &mut self,
        scope: &HarnessScope,
        event_id: &str,
    ) -> Result<Option<RefinementEvent>, EvolutionStoreError> {
        self.book.event(scope, event_id)
    }
}

impl EvolutionAuthority for FlawedLedgers {
    fn open(&mut self, phase: ConformanceOpen) -> Result<(), EvolutionStoreError> {
        self.handles.push(format!("open {phase:?}"));
        if self.refused == Some(phase) {
            return Err(EvolutionStoreError::Storage("no handle".to_string()));
        }
        Ok(())
    }

    fn through(&mut self, phase: ConformanceOpen) {
        self.handles.push(format!("through {phase:?}"));
    }

    fn give_up(&mut self) {
        self.handles.push("give up".to_string());
    }
}

#[test]
fn the_evolution_suite_reads_what_a_store_leaves_unsaid() {
    for unsaid in [false, true] {
        let mut authority = ledgers(unsaid, None);
        assert_eq!(run_evolution_store_conformance(&mut authority), Ok(()));
        assert_eq!(authority.commits, 4);
        assert_eq!(
            openings(&authority.handles),
            vec!["open Fresh", "open Concurrent", "give up", "open Reopen"]
        );
    }
    let mut authority = ledgers(false, Some(ConformanceOpen::Concurrent));
    assert_eq!(
        run_evolution_store_conformance(&mut authority),
        Err(EvolutionStoreError::Storage("no handle".to_string()))
    );
    assert_eq!(openings(&authority.handles), vec!["open Fresh", "open Concurrent"]);
}

#[test]
fn stale_commits_are_judged_by_their_answers() {
    let conflict = |stored_revision| EvolutionCommit::RevisionConflict { stored_revision };
    assert_eq!(judge_stale(&conflict(Some(1)), 1), Ok(false));
    assert_eq!(judge_stale(&EvolutionCommit::CommitUnknown, 1), Ok(true));
    assert_eq!(
        judge_stale(&conflict(None), 1),
        Err(EvolutionStoreError::Corrupt(
            "conformance: a conflict did not report the stored revision".to_string()
        ))
    );
    assert_eq!(
        judge_stale(&EvolutionCommit::Committed, 1),
        Err(EvolutionStoreError::Corrupt(
            "conformance: a stale baseline was committed".to_string()
        ))
    );
}

struct FlawedSnapshots {
    book: HarnessBook,
    answer: Option<HarnessPut>,
    handles: Vec<String>,
}

impl HarnessStore for FlawedSnapshots {
    fn get(&mut self, digest: &str) -> Result<Option<HarnessSnapshot>, HarnessStoreError> {
        self.book.get(digest)
    }

    fn put(&mut self, snapshot: &HarnessSnapshot) -> Result<HarnessPut, HarnessStoreError> {
        let told = self.book.put(snapshot)?;
        match self.answer {
            Some(answer) if told == HarnessPut::AlreadyPresent => Ok(answer),
            _ => Ok(told),
        }
    }

    fn contains(&mut self, digest: &str) -> Result<bool, HarnessStoreError> {
        self.book.contains(digest)
    }
}

impl HarnessAuthority for FlawedSnapshots {
    fn open(&mut self, phase: ConformanceOpen) -> Result<(), HarnessStoreError> {
        self.handles.push(format!("open {phase:?}"));
        Ok(())
    }

    fn through(&mut self, phase: ConformanceOpen) {
        self.handles.push(format!("through {phase:?}"));
    }

    fn give_up(&mut self) {
        self.handles.push("give up".to_string());
    }
}

fn snapshots(answer: Option<HarnessPut>) -> FlawedSnapshots {
    FlawedSnapshots { book: HarnessBook::new(), answer, handles: vec![] }
}

#[test]
fn the_harness_suite_tells_idempotent_writes_from_others() {
    for answer in [None, Some(HarnessPut::CommitUnknown)] {
        let mut authority = snapshots(answer);
        assert_eq!(run_harness_store_conformance(&mut authority), Ok(()));
        assert_eq!(
            openings(&authority.handles),
            vec!["open Fresh", "open Concurrent", "give up", "open Reopen"]
        );
    }
    assert_eq!(
        run_harness_store_conformance(&mut snapshots(Some(HarnessPut::Stored))),
        Err(HarnessStoreError::Corrupt(
            "conformance: re-writing a present digest reported Stored rather than an idempotent \
             write; one content address is written once and never replaced"
                .to_string()
        ))
    );
}

#[test]
fn writes_are_judged_by_their_answers() {
    assert_eq!(judge_repeat(&HarnessPut::AlreadyPresent), Ok(false));
    assert_eq!(judge_repeat(&HarnessPut::CommitUnknown), Ok(true));
    assert!(judge_repeat(&HarnessPut::Stored).is_err());
    let made = HarnessSnapshot::new(HarnessContent::new().system_prompt("p")).unwrap();
    assert_eq!(judge_contended(&HarnessPut::Stored, &None, &made), Ok(()));
    assert_eq!(
        judge_contended(&HarnessPut::CommitUnknown, &None, &made),
        Err(HarnessStoreError::Corrupt(
            "conformance: a contended write settled as CommitUnknown without the addressed content"
                .to_string()
        ))
    );
}
