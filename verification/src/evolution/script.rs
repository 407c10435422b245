//! The script of the conformance suite of evolution stores: the transitions that it commits, what
//! it asks of a store, one call at a time, and how it judges each answer.

use crate::conformance::{first_flaw, judged, silent_step, Judgement};
use crate::evolution::edit::{EditView, ProposalView, RefinementAction};
use crate::evolution::entry::HarnessEntryKind;
use crate::evolution::event::EventView;
use crate::evolution::state::{apply_outcome, rollback_outcome, StateView};
use crate::evolution::store::{EvolutionCall, EvolutionCommit, StoreFault};
use crate::evolution::{ScopeView, EVOLUTION_STATE_SCHEMA_VERSION};
use crate::session_state::ConformanceOpen;
use vstd::prelude::*;

verus! {

/// A fault that the suite finds.
pub open spec fn suite_fault(words: Seq<char>) -> StoreFault {
    StoreFault::Corrupt("conformance: "@ + words)
}

/// The fault of an answer that has to be good.
pub open spec fn flaw_unless(good: bool, words: Seq<char>) -> Option<StoreFault> {
    if good {
        None
    } else {
        Some(suite_fault(words))
    }
}

/// A proposal of the suite.
pub open spec fn suite_proposal(edit: EditView) -> ProposalView {
    ProposalView {
        summary: "conformance refinement"@,
        rationale: "exercise the durable evolution contract"@,
        expected_outcome: "the committed transition is observable and append-only"@,
        edits: seq![edit],
    }
}

/// The edit that creates the suite's fact.
pub open spec fn first_edit() -> EditView {
    EditView {
        action: RefinementAction::Create,
        kind: HarnessEntryKind::Memory,
        id: None,
        title: Some("Conformance Fact"@),
        content: Some("The suite created this entry."@),
        skill: None,
        expected_version: None,
        reason: "conformance evidence"@,
    }
}

/// An edit that is planned against a revision that has passed.
pub open spec fn stale_edit() -> EditView {
    EditView {
        action: RefinementAction::Create,
        kind: HarnessEntryKind::Memory,
        id: None,
        title: Some("Stale Fact"@),
        content: Some("Planned against a stale revision."@),
        skill: None,
        expected_version: None,
        reason: "conformance evidence"@,
    }
}

/// The edit that changes the suite's fact.
pub open spec fn second_edit() -> EditView {
    EditView {
        action: RefinementAction::Update,
        kind: HarnessEntryKind::Memory,
        id: Some("conformance-fact"@),
        title: None,
        content: Some("The suite updated this entry."@),
        skill: None,
        expected_version: Some(1),
        reason: "sharpen the fact"@,
    }
}

/// The scope that the suite works in.
pub open spec fn suite_scope() -> Seq<char> {
    "session:"@ + "evolution-conformance"@
}

/// The empty ledger of that scope.
pub open spec fn base_state() -> StateView {
    StateView {
        schema_version: EVOLUTION_STATE_SCHEMA_VERSION,
        scope: ScopeView::Session("evolution-conformance"@),
        revision: 0,
        entries: Map::empty(),
    }
}

/// What one edit of the suite makes of a ledger.
pub open spec fn step_on(state: StateView, edit: EditView, now_ms: u64) -> (StateView, EventView) {
    apply_outcome(
        state,
        suite_proposal(edit),
        "conformance"@,
        Seq::empty(),
        now_ms,
    )->Ok_0
}

/// The transition that creates the fact.
#[verifier::opaque]
pub open spec fn first_step() -> (StateView, EventView) {
    step_on(base_state(), first_edit(), 1_000)
}

/// The transition that comes too late.
#[verifier::opaque]
pub open spec fn stale_step() -> (StateView, EventView) {
    step_on(base_state(), stale_edit(), 2_000)
}

/// The transition that changes the fact.
#[verifier::opaque]
pub open spec fn second_step() -> (StateView, EventView) {
    step_on(first_step().0, second_edit(), 3_000)
}

/// The transition that takes the change back.
#[verifier::opaque]
pub open spec fn third_step() -> (StateView, EventView) {
    rollback_outcome(second_step().0, second_step().1, "conformance rollback"@, 4_000)->Ok_0
}

/// An event identity that the suite expects no event to have.
pub open spec fn unknown_id() -> Seq<char> {
    "sha256:0000000000000000000000000000000000000000000000000000000000000000"@
}

pub open spec fn open_step(call: EvolutionCall, phase: ConformanceOpen) -> Judgement<StoreFault> {
    match call {
        EvolutionCall::Open(p, a) => judged(p == phase, a, None),
        _ => Judgement::Stray,
    }
}

pub open spec fn load_step(
    call: EvolutionCall,
    scope: Seq<char>,
    flaw: Option<StoreFault>,
) -> Judgement<StoreFault> {
    match call {
        EvolutionCall::Load(s, a) => judged(s == scope, a, flaw),
        _ => Judgement::Stray,
    }
}

pub open spec fn commit_step(
    call: EvolutionCall,
    written: (StateView, EventView),
    flaw: Option<StoreFault>,
) -> Judgement<StoreFault> {
    match call {
        EvolutionCall::Commit(s, e, a) => judged(s == written.0 && e == written.1, a, flaw),
        _ => Judgement::Stray,
    }
}

pub open spec fn history_step(
    call: EvolutionCall,
    scope: Seq<char>,
    limit: usize,
    flaw: Option<StoreFault>,
) -> Judgement<StoreFault> {
    match call {
        EvolutionCall::History(s, l, a) => judged(s == scope && l == limit, a, flaw),
        _ => Judgement::Stray,
    }
}

pub open spec fn event_step(
    call: EvolutionCall,
    scope: Seq<char>,
    id: Seq<char>,
    flaw: Option<StoreFault>,
) -> Judgement<StoreFault> {
    match call {
        EvolutionCall::Event(s, i, a) => judged(s == scope && i == id, a, flaw),
        _ => Judgement::Stray,
    }
}

/// What a load was answered.
pub open spec fn found(call: EvolutionCall) -> Option<StateView> {
    call->Load_1->Ok_0
}

/// What a commit was answered.
pub open spec fn settled(call: EvolutionCall) -> EvolutionCommit {
    call->Commit_2->Ok_0
}

/// What a reading of the history was answered.
pub open spec fn listed(call: EvolutionCall) -> Seq<EventView> {
    call->History_2->Ok_0
}

/// What a lookup was answered.
pub open spec fn named(call: EvolutionCall) -> Option<EventView> {
    call->Event_2->Ok_0
}

/// Whether a commit is settled by what is read after it.
pub open spec fn reconciled(
    commit: EvolutionCommit,
    loaded: Option<StateView>,
    intended: StateView,
) -> bool {
    commit is Committed || (commit is CommitUnknown && loaded == Some(intended))
}

/// The store is empty, and the first commit is read back.
pub open spec fn opening_step(log: Seq<EvolutionCall>, at: int, i: int) -> Judgement<StoreFault> {
    if i == 0 {
        open_step(log[at], ConformanceOpen::Fresh)
    } else if i == 1 {
        load_step(
            log[at + 1],
            suite_scope(),
            flaw_unless(found(log[at + 1]) is None, "fresh authority is not empty"@),
        )
    } else if i == 2 {
        history_step(
            log[at + 2],
            suite_scope(),
            16,
            flaw_unless(listed(log[at + 2]).len() == 0, "fresh authority has event history"@),
        )
    } else if i == 3 {
        commit_step(log[at + 3], first_step(), None)
    } else if i == 4 {
        load_step(
            log[at + 4],
            suite_scope(),
            flaw_unless(
                reconciled(settled(log[at + 3]), found(log[at + 4]), first_step().0),
                "the first commit did not settle"@,
            ),
        )
    } else {
        load_step(
            log[at + 5],
            suite_scope(),
            flaw_unless(
                found(log[at + 5]) == Some(first_step().0),
                "a committed state did not load back exactly"@,
            ),
        )
    }
}

/// The fault of a commit that has to be refused as stale.
pub open spec fn stale_flaw(commit: EvolutionCommit) -> Option<StoreFault> {
    match commit {
        EvolutionCommit::RevisionConflict { stored_revision } => flaw_unless(
            stored_revision == Some(first_step().0.revision),
            "a conflict did not report the stored revision"@,
        ),
        EvolutionCommit::Committed => Some(suite_fault("a stale baseline was committed"@)),
        EvolutionCommit::CommitUnknown => None,
    }
}

/// One more call where the answer to the stale commit was left open.
pub open spec fn extra(log: Seq<EvolutionCall>, at: int) -> int {
    if settled(log[at]) is CommitUnknown {
        1
    } else {
        0
    }
}

/// A stale baseline is refused without writing anything.
pub open spec fn stale_part_step(log: Seq<EvolutionCall>, at: int, i: int) -> Judgement<
    StoreFault,
> {
    let x = extra(log, at);
    if i == 0 {
        commit_step(log[at], stale_step(), stale_flaw(settled(log[at])))
    } else if i == x {
        load_step(
            log[at + 1],
            suite_scope(),
            flaw_unless(
                found(log[at + 1]) != Some(stale_step().0),
                "a stale baseline was committed"@,
            ),
        )
    } else if i == 1 + x {
        load_step(
            log[at + 1 + x],
            suite_scope(),
            flaw_unless(
                found(log[at + 1 + x]) == Some(first_step().0),
                "a refused commit changed the stored state"@,
            ),
        )
    } else {
        history_step(
            log[at + 2 + x],
            suite_scope(),
            16,
            flaw_unless(
                listed(log[at + 2 + x]).len() == 1,
                "a refused commit changed the event history"@,
            ),
        )
    }
}

/// A concurrent handle observes the committed transition and can extend it.
pub open spec fn concurrent_step(log: Seq<EvolutionCall>, at: int, i: int) -> Judgement<
    StoreFault,
> {
    if i == 0 {
        open_step(log[at], ConformanceOpen::Concurrent)
    } else if i == 1 {
        load_step(
            log[at + 1],
            suite_scope(),
            first_flaw(
                flaw_unless(
                    found(log[at + 1]) is Some,
                    "a concurrent handle cannot observe the committed state"@,
                ),
                flaw_unless(
                    found(log[at + 1]) == Some(first_step().0),
                    "a concurrent handle observed a different state"@,
                ),
            ),
        )
    } else if i == 2 {
        commit_step(log[at + 2], second_step(), None)
    } else {
        load_step(
            log[at + 3],
            suite_scope(),
            flaw_unless(
                reconciled(settled(log[at + 2]), found(log[at + 3]), second_step().0),
                "the concurrent commit did not settle"@,
            ),
        )
    }
}

/// A rollback commits as one more transition.
pub open spec fn rollback_step(log: Seq<EvolutionCall>, at: int, i: int) -> Judgement<StoreFault> {
    if i == 0 {
        silent_step(log[at], EvolutionCall::Through(ConformanceOpen::Fresh))
    } else if i == 1 {
        commit_step(log[at + 1], third_step(), None)
    } else {
        load_step(
            log[at + 2],
            suite_scope(),
            flaw_unless(
                reconciled(settled(log[at + 1]), found(log[at + 2]), third_step().0),
                "the rollback commit did not settle"@,
            ),
        )
    }
}

/// History is newest-first, complete and addressable, and scopes are isolated.
pub open spec fn reading_step(log: Seq<EvolutionCall>, at: int, i: int) -> Judgement<StoreFault> {
    if i == 0 {
        history_step(
            log[at],
            suite_scope(),
            16,
            flaw_unless(
                listed(log[at]) == seq![third_step().1, second_step().1, first_step().1],
                "event history is not complete and newest-first"@,
            ),
        )
    } else if i == 1 {
        history_step(
            log[at + 1],
            suite_scope(),
            1,
            flaw_unless(
                listed(log[at + 1]) == seq![third_step().1],
                "a history limit was not honored"@,
            ),
        )
    } else if i == 2 {
        event_step(
            log[at + 2],
            suite_scope(),
            second_step().1.event_id,
            flaw_unless(
                named(log[at + 2]) == Some(second_step().1),
                "an event is not addressable by its ID"@,
            ),
        )
    } else if i == 3 {
        event_step(
            log[at + 3],
            suite_scope(),
            unknown_id(),
            flaw_unless(
                named(log[at + 3]) is None,
                "an unknown event ID resolved to an event"@,
            ),
        )
    } else if i == 4 {
        load_step(
            log[at + 4],
            "global"@,
            flaw_unless(
                found(log[at + 4]) is None,
                "a session commit leaked into the global scope"@,
            ),
        )
    } else {
        history_step(
            log[at + 5],
            "global"@,
            16,
            flaw_unless(
                listed(log[at + 5]).len() == 0,
                "a session commit leaked into the global scope"@,
            ),
        )
    }
}

/// Reopening preserves the committed state and history. The earlier handles are given up before
/// the last one is opened.
pub open spec fn reopening_step(log: Seq<EvolutionCall>, at: int, i: int) -> Judgement<
    StoreFault,
> {
    if i == 0 {
        silent_step(log[at], EvolutionCall::GiveUp)
    } else if i == 1 {
        open_step(log[at + 1], ConformanceOpen::Reopen)
    } else if i == 2 {
        load_step(
            log[at + 2],
            suite_scope(),
            flaw_unless(
                found(log[at + 2]) == Some(third_step().0),
                "reopening lost the committed state"@,
            ),
        )
    } else {
        history_step(
            log[at + 3],
            suite_scope(),
            16,
            flaw_unless(
                listed(log[at + 3]).len() == 3,
                "reopening lost the event history"@,
            ),
        )
    }
}

/// The whole script: how the call at position `i` stands to it.
pub open spec fn suite_step(log: Seq<EvolutionCall>, at: int, i: int) -> Judgement<StoreFault> {
    let x = extra(log, at + 6);
    if i < 6 {
        opening_step(log, at, i)
    } else if i < 9 + x {
        stale_part_step(log, at + 6, i - 6)
    } else if i < 13 + x {
        concurrent_step(log, at + 9 + x, i - 9 - x)
    } else if i < 16 + x {
        rollback_step(log, at + 13 + x, i - 13 - x)
    } else if i < 22 + x {
        reading_step(log, at + 16 + x, i - 16 - x)
    } else {
        reopening_step(log, at + 22 + x, i - 22 - x)
    }
}

/// The number of calls that the script asks for.
pub open spec fn script_len(log: Seq<EvolutionCall>, at: int) -> int {
    26 + extra(log, at + 6)
}

/// Whether what was asked between two moments keeps to the suite's script: every call is the one
/// that the script asks for, every answer but the last is right, and the outcome is success where
/// the whole script was gone through, or else the fault of the last answer.
pub open spec fn suite_walked(
    before: Seq<EvolutionCall>,
    after: Seq<EvolutionCall>,
    outcome: Option<StoreFault>,
) -> bool {
    let at = before.len() as int;
    let made = after.len() - at;
    &&& before.is_prefix_of(after)
    &&& forall|i: int| 0 <= i < made - 1 ==> #[trigger] suite_step(after, at, i) is Right
    &&& match outcome {
        None => made == script_len(after, at) && suite_step(after, at, made - 1) is Right,
        Some(e) => 0 < made <= script_len(after, at) && suite_step(after, at, made - 1)
            == Judgement::Wrong(e),
    }
}

/// Whether the first `k` calls of the script were made, and all of them answered rightly.
pub open spec fn upheld(before: Seq<EvolutionCall>, log: Seq<EvolutionCall>, k: int) -> bool {
    &&& before.is_prefix_of(log)
    &&& log.len() == before.len() + k
    &&& forall|i: int| 0 <= i < k ==> #[trigger] suite_step(log, before.len() as int, i) is Right
}

/// How a call stands to the script depends on what came before it alone.
#[verifier::spinoff_prover]
#[verifier::rlimit(40)]
proof fn lemma_step_stands(log: Seq<EvolutionCall>, now: Seq<EvolutionCall>, at: int, i: int)
    requires
        log.is_prefix_of(now),
        0 <= at,
        0 <= i,
        at + i < log.len(),
    ensures
        suite_step(now, at, i) == suite_step(log, at, i),
{
    assert forall|j: int| 0 <= j < log.len() implies now[j] == log[j] by {}
    if i >= 6 {
        assert(extra(now, at + 6) == extra(log, at + 6));
    }
}

/// One part of the script behind what was upheld so far.
pub proof fn lemma_joined(
    before: Seq<EvolutionCall>,
    log: Seq<EvolutionCall>,
    now: Seq<EvolutionCall>,
    k: int,
    n: int,
    outcome: Option<StoreFault>,
)
    requires
        0 <= k,
        0 < n,
        k + n <= script_len(now, before.len() as int),
        upheld(before, log, k),
        log.is_prefix_of(now),
        forall|i: int|
            k <= i < now.len() - before.len() - 1 ==> #[trigger] suite_step(
                now,
                before.len() as int,
                i,
            ) is Right,
        match outcome {
            None => now.len() == log.len() + n && suite_step(now, before.len() as int, k + n - 1)
                is Right,
            Some(e) => log.len() < now.len() <= log.len() + n && suite_step(
                now,
                before.len() as int,
                now.len() - before.len() - 1,
            ) == Judgement::Wrong(e),
        },
    ensures
        outcome is None ==> upheld(before, now, k + n),
        outcome is Some || k + n == script_len(now, before.len() as int) ==> suite_walked(
            before,
            now,
            outcome,
        ),
{
    let at = before.len() as int;
    assert forall|i: int| 0 <= i < now.len() - at - 1 implies #[trigger] suite_step(now, at, i)
        is Right by {
        if i < k {
            lemma_step_stands(log, now, at, i);
            assert(suite_step(log, at, i) is Right);
        }
    }
}

/// A run of the suite opens one handle for each phase and no more: the fresh one, the concurrent
/// one, and, once both have been given up, the reopened one. A refused opening ends the run with
/// its own fault, so that nothing is opened after it; a run that succeeds has opened all three.
#[verifier::spinoff_prover]
#[verifier::rlimit(40)]
pub proof fn law_suite_opens_each_phase_once(
    before: Seq<EvolutionCall>,
    after: Seq<EvolutionCall>,
    outcome: Option<StoreFault>,
)
    requires
        suite_walked(before, after, outcome),
    ensures
        ({
            let at = before.len() as int;
            let x = extra(after, at + 6);
            &&& forall|i: int|
                at <= i < after.len() && (#[trigger] after[i]) is Open ==> {
                    &&& i == at ==> after[i]->Open_0 is Fresh
                    &&& i == at + 9 + x ==> after[i]->Open_0 is Concurrent
                    &&& i == at + 23 + x ==> after[i]->Open_0 is Reopen && after[i - 1] is GiveUp
                    &&& i == at || i == at + 9 + x || i == at + 23 + x
                    &&& after[i]->Open_1 matches Err(e) ==> i == after.len() - 1 && outcome == Some(
                        e,
                    )
                }
            &&& outcome is None ==> after[at] is Open && after[at + 9 + x] is Open && after[at + 23
                + x] is Open
        }),
{
    let at = before.len() as int;
    let x = extra(after, at + 6);
    assert forall|i: int| at <= i < after.len() && (#[trigger] after[i]) is Open implies {
        &&& i == at ==> after[i]->Open_0 is Fresh
        &&& i == at + 9 + x ==> after[i]->Open_0 is Concurrent
        &&& i == at + 23 + x ==> after[i]->Open_0 is Reopen && after[i - 1] is GiveUp
        &&& i == at || i == at + 9 + x || i == at + 23 + x
        &&& after[i]->Open_1 matches Err(e) ==> i == after.len() - 1 && outcome == Some(e)
    } by {
        let step = suite_step(after, at, i - at);
        if i < after.len() - 1 {
            assert(step is Right);
        }
        if i == at + 23 + x {
            assert(suite_step(after, at, 22 + x) is Right);
        }
    }
    if outcome is None {
        assert(suite_step(after, at, 0) is Right);
        assert(suite_step(after, at, 9 + x) is Right);
        assert(suite_step(after, at, 23 + x) is Right);
    }
}

/// A run of the suite never succeeds where the stale commit was said to have taken effect, or
/// where any later reading of the ledger gave something else than was committed.
pub proof fn law_suite_passes_committed_ledgers_alone(
    before: Seq<EvolutionCall>,
    after: Seq<EvolutionCall>,
)
    requires
        suite_walked(before, after, None),
    ensures
        ({
            let at = before.len() as int;
            let x = extra(after, at + 6);
            &&& !(settled(after[at + 6]) is Committed)
            &&& found(after[at + 7 + x]) == Some(first_step().0)
            &&& listed(after[at + 16 + x]) == seq![
                third_step().1,
                second_step().1,
                first_step().1,
            ]
            &&& found(after[at + 24 + x]) == Some(third_step().0)
        }),
{
    let at = before.len() as int;
    let x = extra(after, at + 6);
    assert(suite_step(after, at, 6) is Right);
    assert(suite_step(after, at, 7 + x) is Right);
    assert(suite_step(after, at, 16 + x) is Right);
    assert(suite_step(after, at, 24 + x) is Right);
}

} // verus!
