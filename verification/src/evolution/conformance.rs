//! The conformance suite of evolution stores.

use crate::conformance::{placed, walked};
use crate::evolution::edit::{
    created_entry, edit_effect, edit_views, total_bytes, updated_entry, EditView, RefinementEdit,
    RefinementProposal,
};
use crate::evolution::entry::{derived_id, entry_id, slug, EntryView, HarnessEntryKind};
use crate::evolution::event::{
    evidence_views, sha256_id, EventKindView, EventView, RefinementEvent,
};
use crate::evolution::script::{
    base_state, concurrent_step, extra, first_edit, first_step, flaw_unless, lemma_joined,
    opening_step, reading_step, reopening_step, rollback_step, second_edit, second_step,
    stale_edit, stale_flaw, stale_part_step, stale_step, step_on, suite_proposal, suite_scope,
    suite_step, suite_walked, third_step, unknown_id,
};
use crate::evolution::soundness::{
    law_rollback_restores, law_valid_proposals_are_applied, lemma_plain_text,
};
use crate::evolution::state::{
    apply_outcome, current, inverted_all, progress, EvolutionState, StateView,
};
use crate::evolution::store::{
    commit_on, event_from, event_views, events_at, evolution_commit_reconciled, has_event, refused,
    revision_at, store_fault, stored_base, writing_fault, EvolutionBook, EvolutionCall,
    EvolutionCommit, EvolutionStore, EvolutionStoreError, LedgerView, Ledgers, StoreFault,
};
use crate::evolution::{
    HarnessScope, Refusal, MAX_ENTRY_SOURCE_BYTES, MAX_HARNESS_ENTRY_CONTENT_BYTES,
    MAX_HARNESS_ENTRY_TITLE_BYTES, MAX_REFINEMENT_TEXT_BYTES,
};
use crate::harness::HarnessEvidenceRef;
use crate::session_state::ConformanceOpen;
use crate::text_map::lemma_sorted_keys;
use vstd::prelude::*;
use vstd::utf8::{is_ascii_chars, is_ascii_chars_encode_utf8};

verus! {

/// The answer to an opening, with its fault.
pub open spec fn opened(r: Result<(), EvolutionStoreError>) -> Result<(), StoreFault> {
    match r {
        Ok(_) => Ok(()),
        Err(e) => Err(e@),
    }
}

/// An authority that a suite reaches through several handles: two that are open at a time, and
/// one that is opened when those have been given up. A lawful authority keeps its ledgers across
/// all of that.
pub trait EvolutionAuthority: EvolutionStore {
    /// Opens the handle of a phase. The operations that follow go through it.
    fn open(&mut self, phase: ConformanceOpen) -> (r: Result<(), EvolutionStoreError>)
        ensures
            final(self).calls() == old(self).calls().push(EvolutionCall::Open(phase, opened(r))),
            old(self).lawful() ==> r is Ok && final(self).lawful() && final(self).ledgers() == old(
                self).ledgers(),
    ;

    /// Has the operations that follow go through a handle that is already open.
    fn through(&mut self, phase: ConformanceOpen)
        ensures
            final(self).calls() == old(self).calls().push(EvolutionCall::Through(phase)),
            old(self).lawful() ==> final(self).lawful() && final(self).ledgers() == old(
                self).ledgers(),
    ;

    /// Gives up every open handle.
    fn give_up(&mut self)
        ensures
            final(self).calls() == old(self).calls().push(EvolutionCall::GiveUp),
            old(self).lawful() ==> final(self).lawful() && final(self).ledgers() == old(
                self).ledgers(),
    ;
}

impl EvolutionAuthority for EvolutionBook {
    fn open(&mut self, phase: ConformanceOpen) -> (r: Result<(), EvolutionStoreError>) {
        self.note(Ghost(EvolutionCall::Open(phase, Ok(()))));
        Ok(())
    }

    fn through(&mut self, phase: ConformanceOpen) {
        self.note(Ghost(EvolutionCall::Through(phase)));
    }

    fn give_up(&mut self) {
        self.note(Ghost(EvolutionCall::GiveUp));
    }
}

/// Refuses with a message where the condition does not hold.
fn require(condition: bool, message: &str) -> (r: Result<(), EvolutionStoreError>)
    ensures
        store_fault(r) == flaw_unless(condition, message@),
{
    if condition {
        Ok(())
    } else {
        let mut out = "conformance: ".to_owned();
        out.append(message);
        Err(EvolutionStoreError::Corrupt(out))
    }
}

/// Judges the answer to a commit that has to be refused as stale, and tells whether the ledger has
/// to be read before the answer is known.
pub fn judge_stale(commit: &EvolutionCommit, stored: u64) -> (r: Result<bool, EvolutionStoreError>)
    ensures
        stored == first_step().0.revision ==> store_fault(r) == stale_flaw(*commit),
        match *commit {
            EvolutionCommit::RevisionConflict { stored_revision } => stored_revision == Some(
                stored,
            ) <==> r is Ok,
            EvolutionCommit::Committed => r is Err,
            EvolutionCommit::CommitUnknown => r is Ok,
        },
        r matches Ok(open) ==> open == (*commit is CommitUnknown),
{
    match commit {
        EvolutionCommit::RevisionConflict { stored_revision } => {
            let told = match stored_revision {
                Some(revision) => *revision == stored,
                None => false,
            };
            require(told, "a conflict did not report the stored revision")?;
            Ok(false)
        },
        EvolutionCommit::Committed => {
            require(false, "a stale baseline was committed")?;
            Ok(false)
        },
        EvolutionCommit::CommitUnknown => Ok(true),
    }
}

proof fn lemma_fact_id()
    ensures
        derived_id("Conformance Fact"@) == Ok::<Seq<char>, Refusal>(
            "conformance-fact"@,
        ),
{
    reveal_strlit("Conformance Fact");
    reveal_strlit("conformance-fact");
    let title = "Conformance Fact"@;
    reveal_with_fuel(slug, 18);
    let made = slug(title, 0, Seq::empty(), false);
    assert(made =~= "conformance-fact"@);
    assert(is_ascii_chars(made));
    is_ascii_chars_encode_utf8(made);
    assert(entry_id(made));
}

/// The entry that the suite creates.
spec fn first_fact() -> EntryView {
    created_entry(first_edit(), "conformance-fact"@, "conformance"@, 1_000)
}

/// The entry as the suite changes it.
spec fn second_fact() -> EntryView {
    updated_entry(second_edit(), first_fact(), "conformance"@, 3_000)
}

proof fn lemma_one_entry(entry: EntryView)
    requires
        entry.text_bytes() <= 128,
    ensures
        ({
            let after = Map::<Seq<char>, EntryView>::empty().insert("conformance-fact"@, entry);
            crate::evolution::edit::budget_fault(after) is None
        }),
{
    let id = "conformance-fact"@;
    let none = Map::<Seq<char>, EntryView>::empty();
    let after = none.insert(id, entry);
    assert(after.dom() =~= set![id]);
    assert(after.dom().len() == 1);
    let keys = seq![id];
    assert forall|k: Seq<char>| after.dom().contains(k) == keys.contains(k) by {
        assert(keys[0] == id);
    }
    lemma_sorted_keys(keys, after.dom());
    assert(keys.drop_last() =~= Seq::empty());
    reveal_with_fuel(crate::evolution::edit::keyed_bytes, 3);
    assert(total_bytes(after) == entry.text_bytes());
}

/// The two entries of the suite are in order.
#[verifier::spinoff_prover]
#[verifier::rlimit(40)]
proof fn lemma_facts()
    ensures
        first_fact().fault() is None,
        first_fact().text_bytes() <= 128,
        second_fact().fault() is None,
        second_fact().text_bytes() <= 128,
        first_edit().fault() is None,
        stale_edit().fault() is None,
        second_edit().fault() is None,
{
    let first = first_fact();
    let second = second_fact();
    reveal_strlit("Conformance Fact");
    reveal_strlit("The suite created this entry.");
    reveal_strlit("The suite updated this entry.");
    reveal_strlit("conformance evidence");
    reveal_strlit("sharpen the fact");
    reveal_strlit("conformance");
    reveal_strlit("conformance-fact");
    lemma_plain_text(first_edit().reason, MAX_REFINEMENT_TEXT_BYTES, "edit reason"@);
    lemma_plain_text(second_edit().reason, MAX_REFINEMENT_TEXT_BYTES, "edit reason"@);
    lemma_fact_id();
    lemma_plain_text(first.title, MAX_HARNESS_ENTRY_TITLE_BYTES, "entry title"@);
    lemma_plain_text(first.content, MAX_HARNESS_ENTRY_CONTENT_BYTES, "entry content"@);
    lemma_plain_text(second.content, MAX_HARNESS_ENTRY_CONTENT_BYTES, "entry content"@);
    lemma_plain_text(first.source, MAX_ENTRY_SOURCE_BYTES, "entry source"@);
    assert(entry_id("conformance-fact"@)) by {
        assert(derived_id("Conformance Fact"@) is Ok);
    }
}

/// The scope of the suite is in order.
proof fn lemma_scope()
    ensures
        base_state().scope.fault() is None,
{
    reveal_strlit("evolution-conformance");
    lemma_plain_text(
        "evolution-conformance"@,
        crate::evolution::MAX_SESSION_SCOPE_ID_BYTES,
        "session scope ID"@,
    );
}

/// A proposal of the suite is in order, and so is the name that it is applied under.
proof fn lemma_proposal(edit: EditView)
    requires
        edit.fault() is None,
    ensures
        suite_proposal(edit).fault() is None,
        crate::evolution::text_fault(
            "conformance"@,
            MAX_ENTRY_SOURCE_BYTES,
            "refinement source"@,
            true,
        ) is None,
        crate::evolution::text_fault(
            "conformance rollback"@,
            MAX_REFINEMENT_TEXT_BYTES,
            "rollback reason"@,
            true,
        ) is None,
{
    reveal_strlit("conformance refinement");
    reveal_strlit("exercise the durable evolution contract");
    reveal_strlit("the committed transition is observable and append-only");
    reveal_strlit("conformance");
    reveal_strlit("conformance rollback");
    let p = suite_proposal(edit);
    lemma_plain_text(p.summary, MAX_REFINEMENT_TEXT_BYTES, "proposal summary"@);
    lemma_plain_text(p.rationale, MAX_REFINEMENT_TEXT_BYTES, "proposal rationale"@);
    lemma_plain_text(p.expected_outcome, MAX_REFINEMENT_TEXT_BYTES, "proposal expected outcome"@);
    lemma_plain_text("conformance"@, MAX_ENTRY_SOURCE_BYTES, "refinement source"@);
    lemma_plain_text("conformance rollback"@, MAX_REFINEMENT_TEXT_BYTES, "rollback reason"@);
    assert(p.edits.drop_first() =~= Seq::empty());
    reveal_with_fuel(crate::evolution::edit::edits_fault, 3);
}

/// Creating the suite's fact in an empty ledger, and changing it then, is never refused.
#[verifier::spinoff_prover]
#[verifier::rlimit(40)]
proof fn lemma_facts_are_kept()
    ensures
        ({
            let p = progress(Map::empty(), seq![first_edit()], "conformance"@, 1_000, 1);
            let q = progress(p.entries, seq![second_edit()], "conformance"@, 3_000, 1);
            &&& p.entries == Map::<Seq<char>, EntryView>::empty().insert(
                "conformance-fact"@,
                first_fact(),
            )
            &&& q.applied.len() == 1
        }),
{
    let id = "conformance-fact"@;
    let none = Map::<Seq<char>, EntryView>::empty();
    lemma_facts();
    lemma_fact_id();
    lemma_one_entry(first_fact());
    lemma_one_entry(second_fact());
    reveal_with_fuel(progress, 2);
    let p = progress(none, seq![first_edit()], "conformance"@, 1_000, 1);
    assert(edit_effect(none, first_edit(), "conformance"@, 1_000) is Ok);
    assert(p.entries == none.insert(id, first_fact()));
    assert(p.entries.insert(id, second_fact()) =~= none.insert(id, second_fact()));
    assert(edit_effect(p.entries, second_edit(), "conformance"@, 3_000) is Ok);
}

/// Applies one edit of the suite.
fn transition_of(state: &EvolutionState, edit: RefinementEdit, now_ms: u64) -> (r: Result<
    (EvolutionState, RefinementEvent),
    EvolutionStoreError,
>)
    requires
        state@.fault() is None,
        state@.revision < 8,
        edit@.fault() is None,
    ensures
        r matches Ok((next, event)) && (next@, event@) == step_on(state@, edit@, now_ms)
            && apply_outcome(
            state@,
            suite_proposal(edit@),
            "conformance"@,
            Seq::empty(),
            now_ms,
        ) == Ok::<_, Refusal>((next@, event@)) && sha256_id(event@.event_id),
{
    let ghost view = edit@;
    let mut edits: Vec<RefinementEdit> = Vec::new();
    edits.push(edit);
    let evidence: Vec<HarnessEvidenceRef> = Vec::new();
    proof {
        assert(edit_views(edits@) =~= seq![view]);
        assert(evidence_views(evidence@) =~= Seq::empty());
        lemma_proposal(view);
        state.lemma_finite();
        law_valid_proposals_are_applied(
            state@,
            suite_proposal(view),
            "conformance"@,
            Seq::empty(),
            now_ms,
        );
    }
    let planned = refused(
        RefinementProposal::new(
            "conformance refinement",
            "exercise the durable evolution contract",
            "the committed transition is observable and append-only",
            edits,
        ),
    )?;
    refused(state.apply(&planned, "conformance", evidence, now_ms))
}

/// A ledger with the event that led to it.
struct Transition {
    state: EvolutionState,
    event: RefinementEvent,
}

/// The transitions of the suite.
struct SuiteDocuments {
    first: Transition,
    stale: Transition,
    second: Transition,
    third: Transition,
}

impl SuiteDocuments {
    /// Whether these are the transitions that the script commits.
    spec fn scripted(&self) -> bool {
        &&& (self.first.state@, self.first.event@) == first_step()
        &&& (self.stale.state@, self.stale.event@) == stale_step()
        &&& (self.second.state@, self.second.event@) == second_step()
        &&& (self.third.state@, self.third.event@) == third_step()
    }
}

/// What the transitions of the suite say: each follows the one before it, and the last takes the
/// second back.
pub open spec fn suite_ledgers_follow() -> bool {
    &&& first_step().0.revision == 1
    &&& first_step().1.based_on_revision == 0
    &&& first_step().1.resulting_revision == 1
    &&& stale_step().1.based_on_revision == 0
    &&& second_step().0.revision == 2
    &&& second_step().1.based_on_revision == 1
    &&& second_step().1.resulting_revision == 2
    &&& third_step().0.revision == 3
    &&& third_step().1.based_on_revision == 2
    &&& third_step().1.resulting_revision == 3
    &&& third_step().1.kind == (EventKindView::Rollback { of_event_id: second_step().1.event_id })
    &&& third_step().1.applied == inverted_all(second_step().1.applied)
    &&& first_step().0.scope.text() == suite_scope()
    &&& stale_step().0.scope.text() == suite_scope()
    &&& second_step().0.scope.text() == suite_scope()
    &&& third_step().0 == (StateView { revision: 3, ..first_step().0 })
    &&& current(third_step().0.entries, "conformance-fact"@) matches Some(fact) && fact.version
        == 1
}

/// Builds the transitions of the suite. None of them is ever refused.
#[verifier::spinoff_prover]
#[verifier::rlimit(40)]
fn documents() -> (r: Result<SuiteDocuments, EvolutionStoreError>)
    ensures
        r matches Ok(made) && made.scripted() && suite_ledgers_follow(),
{
    let scope = HarnessScope::session("evolution-conformance");
    proof {
        reveal(first_step);
        reveal(stale_step);
        reveal(second_step);
        reveal(third_step);
        lemma_scope();
        lemma_facts();
        lemma_facts_are_kept();
        lemma_proposal(first_edit());
        assert(scope@.text() == suite_scope());
    }
    let base = refused(EvolutionState::new(scope))?;
    assert(base@ == base_state());
    let (first_state, first_event) = transition_of(
        &base,
        RefinementEdit::create(
            HarnessEntryKind::Memory,
            "Conformance Fact",
            "The suite created this entry.",
            "conformance evidence",
        ),
        1_000,
    )?;
    let (stale_state, stale_event) = transition_of(
        &base,
        RefinementEdit::create(
            HarnessEntryKind::Memory,
            "Stale Fact",
            "Planned against a stale revision.",
            "conformance evidence",
        ),
        2_000,
    )?;
    let change = RefinementEdit::update(
        HarnessEntryKind::Memory,
        "conformance-fact",
        "sharpen the fact",
    ).with_content("The suite updated this entry.").with_expected_version(1);
    assert(change@ == second_edit());
    let (second_state, second_event) = transition_of(&first_state, change, 3_000)?;
    proof {
        law_rollback_restores(
            first_state@,
            suite_proposal(second_edit()),
            "conformance"@,
            Seq::empty(),
            3_000,
            second_state@,
            second_event@,
            "conformance rollback"@,
            4_000,
        );
    }
    let (third_state, third_event) = refused(
        second_state.rollback(&second_event, "conformance rollback", 4_000),
    )?;
    Ok(
        SuiteDocuments {
            first: Transition { state: first_state, event: first_event },
            stale: Transition { state: stale_state, event: stale_event },
            second: Transition { state: second_state, event: second_event },
            third: Transition { state: third_state, event: third_event },
        },
    )
}

/// Whether a load gave exactly this state.
fn is_state(loaded_state: &Option<EvolutionState>, state: &EvolutionState) -> (r: bool)
    ensures
        r == (*loaded_state is Some && loaded_state->Some_0@ == state@),
{
    match loaded_state {
        Some(found) => found.same(state),
        None => false,
    }
}

/// Whether a transition can be written.
#[verifier::opaque]
pub open spec fn can_be_written(step: (StateView, EventView)) -> bool {
    writing_fault(step.0, step.1) is None
}

/// Whether nothing stands against the suite's own documents: each of its transitions can be
/// written, and no two of its events share an identity, or have the one that it takes for unknown.
pub open spec fn suite_is_sound() -> bool {
    let a = first_step().1.event_id;
    let b = second_step().1.event_id;
    let c = third_step().1.event_id;
    &&& can_be_written(first_step())
    &&& can_be_written(stale_step())
    &&& can_be_written(second_step())
    &&& can_be_written(third_step())
    &&& a != b && a != c && b != c
    &&& a != unknown_id() && b != unknown_id() && c != unknown_id()
}

/// What is stored when the suite's ledger stands at a state.
pub open spec fn suite_ledgers(state: StateView, events: Seq<EventView>) -> Ledgers {
    Ledgers::empty().insert(suite_scope(), LedgerView { state, events })
}

/// What is stored behind the first transition.
pub open spec fn after_first() -> Ledgers {
    suite_ledgers(first_step().0, seq![first_step().1])
}

/// What is stored behind the second transition.
pub open spec fn after_second() -> Ledgers {
    suite_ledgers(second_step().0, seq![first_step().1, second_step().1])
}

/// What a run of the suite leaves behind: the ledger of its scope, with three transitions, the
/// last of which took the second back.
pub open spec fn suite_remains() -> Ledgers {
    suite_ledgers(third_step().0, seq![first_step().1, second_step().1, third_step().1])
}

/// A transition that can be written and follows what is stored is committed.
proof fn lemma_commit(ledgers: Ledgers, step: (StateView, EventView))
    requires
        can_be_written(step),
        stored_base(revision_at(ledgers, step.0.scope.text())) == step.1.based_on_revision,
        !has_event(events_at(ledgers, step.0.scope.text()), step.1.event_id),
    ensures
        commit_on(ledgers, step.0, step.1) == (
            Ok::<EvolutionCommit, StoreFault>(EvolutionCommit::Committed),
            ledgers.insert(
                step.0.scope.text(),
                LedgerView {
                    state: step.0,
                    events: events_at(ledgers, step.0.scope.text()).push(step.1),
                },
            ),
        ),
{
    reveal(can_be_written);
}

/// A transition that can be written and does not follow what is stored is a conflict.
proof fn lemma_conflict(ledgers: Ledgers, step: (StateView, EventView))
    requires
        can_be_written(step),
        stored_base(revision_at(ledgers, step.0.scope.text())) != step.1.based_on_revision,
    ensures
        commit_on(ledgers, step.0, step.1) == (
            Ok::<EvolutionCommit, StoreFault>(
                EvolutionCommit::RevisionConflict {
                    stored_revision: revision_at(ledgers, step.0.scope.text()),
                },
            ),
            ledgers,
        ),
{
    reveal(can_be_written);
}

/// What the suite's commits come to on a lawful store.
#[verifier::spinoff_prover]
#[verifier::rlimit(40)]
proof fn lemma_suite_commits()
    requires
        suite_ledgers_follow(),
        suite_is_sound(),
    ensures
        commit_on(Ledgers::empty(), first_step().0, first_step().1) == (
            Ok::<EvolutionCommit, StoreFault>(EvolutionCommit::Committed),
            after_first(),
        ),
        commit_on(after_first(), stale_step().0, stale_step().1) == (
            Ok::<EvolutionCommit, StoreFault>(
                EvolutionCommit::RevisionConflict { stored_revision: Some(1) },
            ),
            after_first(),
        ),
        commit_on(after_first(), second_step().0, second_step().1) == (
            Ok::<EvolutionCommit, StoreFault>(EvolutionCommit::Committed),
            after_second(),
        ),
        commit_on(after_second(), third_step().0, third_step().1) == (
            Ok::<EvolutionCommit, StoreFault>(EvolutionCommit::Committed),
            suite_remains(),
        ),
{
    let scope = suite_scope();
    let none = Ledgers::empty();
    let a = first_step().1;
    let b = second_step().1;
    let c = third_step().1;
    assert(first_step().0.scope.text() == scope);
    assert(stale_step().0.scope.text() == scope);
    assert(second_step().0.scope.text() == scope);
    assert(third_step().0.scope.text() == scope);
    assert(events_at(none, scope).len() == 0);
    lemma_commit(none, first_step());
    assert(events_at(none, scope).push(a) =~= seq![a]);
    let one = seq![a];
    assert(events_at(after_first(), scope) == one);
    assert(revision_at(after_first(), scope) == Some(1u64));
    lemma_conflict(after_first(), stale_step());
    assert(!has_event(one, b.event_id)) by {
        assert(one.len() == 1 && one[0] == a);
    }
    lemma_commit(after_first(), second_step());
    assert(one.push(b) =~= seq![a, b]);
    assert(after_first().insert(
        scope,
        LedgerView { state: second_step().0, events: seq![a, b] },
    ) =~= after_second());
    let two = seq![a, b];
    assert(events_at(after_second(), scope) == two);
    assert(!has_event(two, c.event_id)) by {
        assert(two.len() == 2 && two[0] == a && two[1] == b);
    }
    lemma_commit(after_second(), third_step());
    assert(two.push(c) =~= seq![a, b, c]);
    assert(after_second().insert(
        scope,
        LedgerView { state: third_step().0, events: seq![a, b, c] },
    ) =~= suite_remains());
}

/// The refusal of an authority that already holds the suite's ledger.
pub open spec fn not_fresh() -> StoreFault {
    StoreFault::Corrupt("conformance: "@ + "fresh authority is not empty"@)
}

/// The store is empty, and the first commit is read back.
#[verifier::spinoff_prover]
#[verifier::rlimit(40)]
fn check_opening<A: EvolutionAuthority>(
    authority: &mut A,
    made: &SuiteDocuments,
    scope: &HarnessScope,
) -> (r: Result<(), EvolutionStoreError>)
    requires
        made.scripted(),
        suite_ledgers_follow(),
        scope@.text() == suite_scope(),
    ensures
        walked(
            |i: int|
                opening_step(final(authority).calls(), old(authority).calls().len() as int, i),
            old(authority).calls(),
            final(authority).calls(),
            6,
            store_fault(r),
        ),
        old(authority).lawful() && old(authority).ledgers().dom().contains(suite_scope())
            ==> store_fault(r) == Some(not_fresh()) && final(authority).ledgers()
                == old(authority).ledgers(),
        old(authority).lawful() && old(authority).ledgers() == Ledgers::empty()
            && suite_is_sound() ==> r is Ok && final(authority).lawful()
            && final(authority).ledgers() == after_first(),
{
    let ghost good = authority.lawful() && authority.ledgers() == Ledgers::empty()
        && suite_is_sound();
    authority.open(ConformanceOpen::Fresh)?;
    let found = authority.load(scope)?;
    require(found.is_none(), "fresh authority is not empty")?;
    let past = authority.history(scope, 16)?;
    assert(event_views(past@).len() == past@.len());
    require(past.len() == 0, "fresh authority has event history")?;
    proof {
        if good {
            lemma_suite_commits();
        }
    }
    let commit = authority.commit(&made.first.state, &made.first.event)?;
    let found = authority.load(scope)?;
    require(
        evolution_commit_reconciled(&commit, &found, &made.first.state),
        "the first commit did not settle",
    )?;
    assert(good ==> authority.ledgers() == after_first());
    let found = authority.load(scope)?;
    require(is_state(&found, &made.first.state), "a committed state did not load back exactly")
}

/// A stale baseline is refused without writing anything.
#[verifier::spinoff_prover]
#[verifier::rlimit(40)]
fn check_stale<A: EvolutionAuthority>(
    authority: &mut A,
    made: &SuiteDocuments,
    scope: &HarnessScope,
) -> (r: Result<(), EvolutionStoreError>)
    requires
        made.scripted(),
        suite_ledgers_follow(),
        scope@.text() == suite_scope(),
    ensures
        walked(
            |i: int|
                stale_part_step(final(authority).calls(), old(authority).calls().len() as int, i),
            old(authority).calls(),
            final(authority).calls(),
            3 + extra(final(authority).calls(), old(authority).calls().len() as int),
            store_fault(r),
        ),
        old(authority).lawful() && old(authority).ledgers() == after_first()
            && suite_is_sound() ==> r is Ok && final(authority).lawful()
            && final(authority).ledgers() == after_first(),
{
    let ghost good = authority.lawful() && authority.ledgers() == after_first()
        && suite_is_sound();
    proof {
        if good {
            lemma_suite_commits();
        }
    }
    let commit = authority.commit(&made.stale.state, &made.stale.event)?;
    let open = judge_stale(&commit, made.first.state.revision())?;
    if open {
        let found = authority.load(scope)?;
        require(!is_state(&found, &made.stale.state), "a stale baseline was committed")?;
    }
    let found = authority.load(scope)?;
    require(is_state(&found, &made.first.state), "a refused commit changed the stored state")?;
    let past = authority.history(scope, 16)?;
    assert(event_views(past@).len() == past@.len());
    require(past.len() == 1, "a refused commit changed the event history")
}

/// A concurrent handle observes the committed transition and can extend it.
#[verifier::spinoff_prover]
#[verifier::rlimit(40)]
fn check_concurrent<A: EvolutionAuthority>(
    authority: &mut A,
    made: &SuiteDocuments,
    scope: &HarnessScope,
) -> (r: Result<(), EvolutionStoreError>)
    requires
        made.scripted(),
        suite_ledgers_follow(),
        scope@.text() == suite_scope(),
    ensures
        walked(
            |i: int|
                concurrent_step(final(authority).calls(), old(authority).calls().len() as int, i),
            old(authority).calls(),
            final(authority).calls(),
            4,
            store_fault(r),
        ),
        old(authority).lawful() && old(authority).ledgers() == after_first()
            && suite_is_sound() ==> r is Ok && final(authority).lawful()
            && final(authority).ledgers() == after_second(),
{
    let ghost good = authority.lawful() && authority.ledgers() == after_first()
        && suite_is_sound();
    authority.open(ConformanceOpen::Concurrent)?;
    let found = authority.load(scope)?;
    require(found.is_some(), "a concurrent handle cannot observe the committed state")?;
    require(
        is_state(&found, &made.first.state),
        "a concurrent handle observed a different state",
    )?;
    proof {
        if good {
            lemma_suite_commits();
        }
    }
    let commit = authority.commit(&made.second.state, &made.second.event)?;
    assert(good ==> authority.ledgers() == after_second());
    let found = authority.load(scope)?;
    require(
        evolution_commit_reconciled(&commit, &found, &made.second.state),
        "the concurrent commit did not settle",
    )
}

/// A rollback commits as one more transition.
#[verifier::spinoff_prover]
#[verifier::rlimit(40)]
fn check_rollback<A: EvolutionAuthority>(
    authority: &mut A,
    made: &SuiteDocuments,
    scope: &HarnessScope,
) -> (r: Result<(), EvolutionStoreError>)
    requires
        made.scripted(),
        suite_ledgers_follow(),
        scope@.text() == suite_scope(),
    ensures
        walked(
            |i: int|
                rollback_step(final(authority).calls(), old(authority).calls().len() as int, i),
            old(authority).calls(),
            final(authority).calls(),
            3,
            store_fault(r),
        ),
        old(authority).lawful() && old(authority).ledgers() == after_second()
            && suite_is_sound() ==> r is Ok && final(authority).lawful()
            && final(authority).ledgers() == suite_remains(),
{
    let ghost good = authority.lawful() && authority.ledgers() == after_second()
        && suite_is_sound();
    proof {
        if good {
            lemma_suite_commits();
        }
    }
    authority.through(ConformanceOpen::Fresh);
    let commit = authority.commit(&made.third.state, &made.third.event)?;
    assert(good ==> authority.ledgers() == suite_remains());
    let found = authority.load(scope)?;
    require(
        evolution_commit_reconciled(&commit, &found, &made.third.state),
        "the rollback commit did not settle",
    )
}

/// History is newest-first, complete and addressable, and scopes are isolated.
#[verifier::spinoff_prover]
#[verifier::rlimit(40)]
fn check_reading<A: EvolutionAuthority>(
    authority: &mut A,
    made: &SuiteDocuments,
    scope: &HarnessScope,
) -> (r: Result<(), EvolutionStoreError>)
    requires
        made.scripted(),
        suite_ledgers_follow(),
        scope@.text() == suite_scope(),
    ensures
        walked(
            |i: int|
                reading_step(final(authority).calls(), old(authority).calls().len() as int, i),
            old(authority).calls(),
            final(authority).calls(),
            6,
            store_fault(r),
        ),
        old(authority).lawful() && old(authority).ledgers() == suite_remains()
            && suite_is_sound() ==> r is Ok && final(authority).lawful()
            && final(authority).ledgers() == suite_remains(),
{
    let ghost good = authority.lawful() && authority.ledgers() == suite_remains()
        && suite_is_sound();
    proof {
        reveal_strlit("global");
        reveal_strlit("session:");
        assert(suite_scope()[0] == 's');
        assert("global"@[0] == 'g');
        reveal_with_fuel(event_from, 5);
    }
    let past = authority.history(scope, 16)?;
    let ghost wanted = seq![third_step().1, second_step().1, first_step().1];
    proof {
        let all = event_views(past@);
        assert(all.len() == past@.len());
        if good {
            assert(all =~= wanted);
        }
        if past@.len() == 3 {
            assert(all[0] == past@[0]@ && all[1] == past@[1]@ && all[2] == past@[2]@);
        }
        assert(past@.len() == 3 && past@[0]@ == third_step().1 && past@[1]@ == second_step().1
            && past@[2]@ == first_step().1 <==> all == wanted) by {
            if past@.len() == 3 && past@[0]@ == third_step().1 && past@[1]@ == second_step().1
                && past@[2]@ == first_step().1 {
                assert(all =~= wanted);
            }
            if all == wanted {
                assert(wanted[0] == third_step().1 && wanted[1] == second_step().1 && wanted[2]
                    == first_step().1);
            }
        }
    }
    require(
        past.len() == 3 && past[0].same(&made.third.event) && past[1].same(&made.second.event)
            && past[2].same(&made.first.event),
        "event history is not complete and newest-first",
    )?;
    let newest = authority.history(scope, 1)?;
    proof {
        let all = event_views(newest@);
        assert(all.len() == newest@.len());
        if good {
            assert(all =~= seq![third_step().1]);
        }
        if newest@.len() == 1 {
            assert(all[0] == newest@[0]@);
        }
        assert(newest@.len() == 1 && newest@[0]@ == third_step().1 <==> all == seq![
            third_step().1,
        ]) by {
            if newest@.len() == 1 && newest@[0]@ == third_step().1 {
                assert(all =~= seq![third_step().1]);
            }
            if all == seq![third_step().1] {
                assert(seq![third_step().1][0] == third_step().1);
            }
        }
    }
    require(
        newest.len() == 1 && newest[0].same(&made.third.event),
        "a history limit was not honored",
    )?;
    let named = match authority.event(scope, made.second.event.event_id())? {
        Some(event) => event.same(&made.second.event),
        None => false,
    };
    require(named, "an event is not addressable by its ID")?;
    let unknown = authority.event(
        scope,
        "sha256:0000000000000000000000000000000000000000000000000000000000000000",
    )?;
    require(unknown.is_none(), "an unknown event ID resolved to an event")?;
    let everywhere = HarnessScope::Global;
    let leaked = authority.load(&everywhere)?;
    require(leaked.is_none(), "a session commit leaked into the global scope")?;
    let leaked_past = authority.history(&everywhere, 16)?;
    assert(event_views(leaked_past@).len() == leaked_past@.len());
    require(leaked_past.len() == 0, "a session commit leaked into the global scope")
}

/// Reopening preserves the committed state and history.
#[verifier::spinoff_prover]
#[verifier::rlimit(40)]
fn check_reopening<A: EvolutionAuthority>(
    authority: &mut A,
    made: &SuiteDocuments,
    scope: &HarnessScope,
) -> (r: Result<(), EvolutionStoreError>)
    requires
        made.scripted(),
        suite_ledgers_follow(),
        scope@.text() == suite_scope(),
    ensures
        walked(
            |i: int|
                reopening_step(final(authority).calls(), old(authority).calls().len() as int, i),
            old(authority).calls(),
            final(authority).calls(),
            4,
            store_fault(r),
        ),
        old(authority).lawful() && old(authority).ledgers() == suite_remains()
            && suite_is_sound() ==> r is Ok && final(authority).lawful()
            && final(authority).ledgers() == suite_remains(),
{
    let ghost good = authority.lawful() && authority.ledgers() == suite_remains()
        && suite_is_sound();
    authority.give_up();
    authority.open(ConformanceOpen::Reopen)?;
    let found = authority.load(scope)?;
    require(is_state(&found, &made.third.state), "reopening lost the committed state")?;
    let past = authority.history(scope, 16)?;
    assert(event_views(past@).len() == past@.len());
    require(past.len() == 3, "reopening lost the event history")
}

/// Runs the evolution ledger contract against an authority that holds nothing yet: commits are
/// atomic transitions between revisions, and the event history is append-only and addressed by
/// content. Whatever the authority is, the run keeps to the suite's script, and its outcome is
/// what the script says of the answers. Every lawful authority passes, unless something stands
/// against the suite's own documents, and is left with the suite's ledger; one that already holds
/// that ledger is refused.
#[verifier::spinoff_prover]
#[verifier::rlimit(60)]
pub fn run_evolution_store_conformance<A: EvolutionAuthority>(authority: &mut A) -> (r: Result<
    (),
    EvolutionStoreError,
>)
    ensures
        suite_walked(old(authority).calls(), final(authority).calls(), store_fault(r)),
        old(authority).lawful() && old(authority).ledgers() == Ledgers::empty() && suite_is_sound()
            ==> r is Ok && final(authority).lawful() && final(authority).ledgers()
            == suite_remains() && suite_ledgers_follow(),
        old(authority).lawful() && old(authority).ledgers().dom().contains(suite_scope())
            ==> store_fault(r) == Some(not_fresh()) && final(authority).ledgers()
                == old(authority).ledgers(),
{
    let ghost start = authority.calls();
    let made = documents()?;
    let scope = HarnessScope::session("evolution-conformance");
    assert(scope@.text() == suite_scope());
    let ghost log = authority.calls();
    let begun = check_opening(authority, &made, &scope);
    proof {
        let now = authority.calls();
        assert forall|i: int| 0 <= i < now.len() - start.len() - 1 implies #[trigger] suite_step(
            now,
            start.len() as int,
            i,
        ) is Right by {
            assert(placed(i - (0)));
        }
        lemma_joined(start, log, now, 0, 6, store_fault(begun));
    }
    begun?;
    let ghost log = authority.calls();
    let stale = check_stale(authority, &made, &scope);
    proof {
        let now = authority.calls();
        assert forall|i: int| 6 <= i < now.len() - start.len() - 1 implies #[trigger] suite_step(
            now,
            start.len() as int,
            i,
        ) is Right by {
            assert(placed(i - (6)));
        }
        lemma_joined(start, log, now, 6, 3 + extra(now, start.len() as int + 6), store_fault(stale));
    }
    stale?;
    let ghost x = extra(authority.calls(), start.len() as int + 6);
    let ghost log = authority.calls();
    let joined = check_concurrent(authority, &made, &scope);
    proof {
        let now = authority.calls();
        assert forall|i: int| 9 + x <= i < now.len() - start.len() - 1 implies #[trigger] suite_step(
            now,
            start.len() as int,
            i,
        ) is Right by {
            assert(placed(i - (9 + x)));
        }
        lemma_joined(start, log, now, 9 + x, 4, store_fault(joined));
    }
    joined?;
    let ghost log = authority.calls();
    let undone = check_rollback(authority, &made, &scope);
    proof {
        let now = authority.calls();
        assert forall|i: int| 13 + x <= i < now.len() - start.len() - 1 implies #[trigger] suite_step(
            now,
            start.len() as int,
            i,
        ) is Right by {
            assert(placed(i - (13 + x)));
        }
        lemma_joined(start, log, now, 13 + x, 3, store_fault(undone));
    }
    undone?;
    let ghost log = authority.calls();
    let read = check_reading(authority, &made, &scope);
    proof {
        let now = authority.calls();
        assert forall|i: int| 16 + x <= i < now.len() - start.len() - 1 implies #[trigger] suite_step(
            now,
            start.len() as int,
            i,
        ) is Right by {
            assert(placed(i - (16 + x)));
        }
        lemma_joined(start, log, now, 16 + x, 6, store_fault(read));
    }
    read?;
    let ghost log = authority.calls();
    let reopened = check_reopening(authority, &made, &scope);
    proof {
        let now = authority.calls();
        assert forall|i: int| 22 + x <= i < now.len() - start.len() - 1 implies #[trigger] suite_step(
            now,
            start.len() as int,
            i,
        ) is Right by {
            assert(placed(i - (22 + x)));
        }
        lemma_joined(start, log, now, 22 + x, 4, store_fault(reopened));
    }
    reopened
}

} // verus!
