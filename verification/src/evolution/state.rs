//! One scope's ledger: applying proposals edit by edit and rolling events back whole.

use crate::evolution::edit::{
    apply_edit, duplicate_entry, duplicate_text, edit_effect, entry_views, text_total, total_bytes,
    with_effect, EditView, ProposalView, RefinementProposal,
};
use crate::evolution::entry::{EntryView, HarnessEntry};
use crate::evolution::event::{
    applied_views, built_event, event_identity, evidence_views, rejected_views, sha256_id,
    AppliedEdit, AppliedView, EventDraft, EventKindView, EventView, RefinementEvent,
    RefinementEventKind, RejectedEdit, RejectedView,
};
use crate::evolution::identity::identity_reads_back;
use crate::evolution::soundness::{law_valid_proposals_are_applied, lemma_rollback_event};
use crate::evolution::wire::event_tame;
use crate::evolution::{
    first_of, invalid, joined, joined3, refusal, text_fault, validate_text, EvolutionError,
    HarnessScope, Refusal, ScopeView, EVOLUTION_STATE_SCHEMA_VERSION, MAX_ENTRY_SOURCE_BYTES,
    MAX_HARNESS_ENTRIES_PER_SCOPE, MAX_HARNESS_EVIDENCE_REFS, MAX_HARNESS_SCOPE_CONTENT_BYTES,
    MAX_REFINEMENT_EDITS, MAX_REFINEMENT_TEXT_BYTES, REFINEMENT_EVENT_SCHEMA_VERSION,
};
use crate::harness::{EvidenceView, HarnessEvidenceKind, HarnessEvidenceRef};
use crate::text::{
    chars_of, decimal, head_within, is_blank, is_whitespace, keep_head, push_decimal, same_text,
    text_of,
};
use crate::text_map::{sorted_keys, TextMap};
use vstd::prelude::*;

verus! {

/// One scope's complete ledger. The revision advances by exactly one per committed event.
#[derive(Debug, PartialEq, Eq)]
pub struct EvolutionState {
    pub schema_version: u32,
    pub scope: HarnessScope,
    pub revision: u64,
    pub entries: TextMap<HarnessEntry>,
}

/// What an [`EvolutionState`] says.
pub struct StateView {
    pub schema_version: u32,
    pub scope: ScopeView,
    pub revision: u64,
    pub entries: Map<Seq<char>, EntryView>,
}

impl View for EvolutionState {
    type V = StateView;

    open spec fn view(&self) -> StateView {
        StateView {
            schema_version: self.schema_version,
            scope: self.scope@,
            revision: self.revision,
            entries: entry_views(self.entries@),
        }
    }
}

/// What is wrong with the first faulty entry among `keys`.
pub open spec fn entries_fault(
    keys: Seq<Seq<char>>,
    entries: Map<Seq<char>, EntryView>,
) -> Option<Refusal>
    decreases keys.len(),
{
    if keys.len() == 0 {
        None
    } else {
        first_of(
            entries[keys[0]].fault(),
            first_of(
                if keys[0] != entries[keys[0]].id {
                    Some(Refusal::Invalid("an entry is stored under a foreign ID"@))
                } else {
                    None
                },
                entries_fault(keys.drop_first(), entries),
            ),
        )
    }
}

/// Where no entry is faulty, each is in order and stands under its own identifier.
pub proof fn lemma_entries_checked(
    keys: Seq<Seq<char>>,
    entries: Map<Seq<char>, EntryView>,
    i: int,
)
    requires
        entries_fault(keys, entries) is None,
        0 <= i < keys.len(),
    ensures
        entries[keys[i]].fault() is None,
        entries[keys[i]].id == keys[i],
    decreases keys.len(),
{
    if i > 0 {
        lemma_entries_checked(keys.drop_first(), entries, i - 1);
        assert(keys.drop_first()[i - 1] == keys[i]);
    }
}

impl StateView {
    /// What is wrong with the ledger.
    pub open spec fn fault(self) -> Option<Refusal> {
        if self.schema_version != EVOLUTION_STATE_SCHEMA_VERSION {
            Some(
                Refusal::Invalid(
                    "unsupported evolution state schema "@ + decimal(self.schema_version as nat),
                ),
            )
        } else {
            first_of(
                self.scope.fault(),
                if self.entries.dom().len() > MAX_HARNESS_ENTRIES_PER_SCOPE {
                    Some(
                        Refusal::Invalid(
                            "a scope holds "@ + decimal(self.entries.dom().len())
                                + " entries; maximum is "@ + decimal(
                                MAX_HARNESS_ENTRIES_PER_SCOPE as nat,
                            ),
                        ),
                    )
                } else if total_bytes(self.entries) > MAX_HARNESS_SCOPE_CONTENT_BYTES {
                    Some(
                        Refusal::Invalid(
                            "a scope's entry text exceeds "@ + decimal(
                                MAX_HARNESS_SCOPE_CONTENT_BYTES as nat,
                            ) + " bytes"@,
                        ),
                    )
                } else {
                    entries_fault(sorted_keys(self.entries.dom()), self.entries)
                },
            )
        }
    }
}

/// How far a proposal has come: the entries, the edits committed and the edits refused.
pub struct Progress {
    pub entries: Map<Seq<char>, EntryView>,
    pub applied: Seq<AppliedView>,
    pub rejected: Seq<RejectedView>,
}

/// The words under which a refused edit is recorded: those of the refusal, as far as they fit.
pub open spec fn recorded_words(refusal: Refusal) -> Seq<char> {
    head_within(refusal.words(), MAX_REFINEMENT_TEXT_BYTES as nat)
}

/// The first `n` edits of a proposal, each one committed or refused on its own.
pub open spec fn progress(
    entries: Map<Seq<char>, EntryView>,
    edits: Seq<EditView>,
    source: Seq<char>,
    now_ms: u64,
    n: nat,
) -> Progress
    decreases n,
{
    if n == 0 {
        Progress { entries, applied: Seq::empty(), rejected: Seq::empty() }
    } else {
        let p = progress(entries, edits, source, now_ms, (n - 1) as nat);
        let edit = edits[n - 1];
        match edit_effect(p.entries, edit, source, now_ms) {
            Ok(effect) => Progress {
                entries: with_effect(p.entries, effect.id, effect.after),
                applied: p.applied.push(
                    AppliedView {
                        index: (n - 1) as u32,
                        entry_id: effect.id,
                        action: edit.action,
                        before: effect.before,
                        after: effect.after,
                    },
                ),
                rejected: p.rejected,
            },
            Err(e) => Progress {
                entries: p.entries,
                applied: p.applied,
                rejected: p.rejected.push(
                    RejectedView {
                        index: (n - 1) as u32,
                        entry_id: edit.id,
                        error: recorded_words(e),
                    },
                ),
            },
        }
    }
}

/// The event of an applied proposal, before it has an identity.
pub open spec fn applied_event(
    state: StateView,
    proposal: ProposalView,
    p: Progress,
    evidence: Seq<EvidenceView>,
    now_ms: u64,
) -> EventView {
    EventView {
        schema_version: REFINEMENT_EVENT_SCHEMA_VERSION,
        event_id: Seq::empty(),
        scope: state.scope,
        kind: EventKindView::Applied,
        based_on_revision: state.revision,
        resulting_revision: (state.revision + 1) as u64,
        summary: proposal.summary,
        rationale: proposal.rationale,
        expected_outcome: proposal.expected_outcome,
        applied: p.applied,
        rejected: p.rejected,
        evidence,
        created_at_ms: now_ms,
    }
}

/// The ledger after an event that leaves these entries, or why it is refused.
pub open spec fn advanced(
    state: StateView,
    event: EventView,
    entries: Map<Seq<char>, EntryView>,
) -> Result<(StateView, EventView), Refusal> {
    match built_event(event) {
        Err(e) => Err(e),
        Ok(built) => {
            let next = StateView { revision: built.resulting_revision, entries, ..state };
            match next.fault() {
                Some(e) => Err(e),
                None => Ok((next, built)),
            }
        },
    }
}

/// What applying a proposal gives: the next ledger and its event, or why it is refused.
pub open spec fn apply_outcome(
    state: StateView,
    proposal: ProposalView,
    source: Seq<char>,
    evidence: Seq<EvidenceView>,
    now_ms: u64,
) -> Result<(StateView, EventView), Refusal> {
    match first_of(
        proposal.fault(),
        text_fault(source, MAX_ENTRY_SOURCE_BYTES, "refinement source"@, true),
    ) {
        Some(e) => Err(e),
        None => {
            let p = progress(state.entries, proposal.edits, source, now_ms, proposal.edits.len());
            advanced(state, applied_event(state, proposal, p, evidence, now_ms), p.entries)
        },
    }
}

/// The refusal to roll back over a later change.
pub open spec fn conflict(id: Seq<char>) -> Refusal {
    Refusal::RollbackConflict(
        "entry '"@ + id + "' changed after the event being rolled back"@,
    )
}

/// The entry under an identifier.
pub open spec fn current(entries: Map<Seq<char>, EntryView>, id: Seq<char>) -> Option<EntryView> {
    if entries.dom().contains(id) {
        Some(entries[id])
    } else {
        None
    }
}

/// The entries before a committed edit, when nothing has touched its entry since.
pub open spec fn undo_edit(
    entries: Map<Seq<char>, EntryView>,
    edit: AppliedView,
) -> Result<Map<Seq<char>, EntryView>, Refusal> {
    if edit.before is None && edit.after is None {
        Err(Refusal::RollbackConflict("an applied edit records no snapshots"@))
    } else if current(entries, edit.entry_id) != edit.after {
        Err(conflict(edit.entry_id))
    } else {
        Ok(with_effect(entries, edit.entry_id, edit.before))
    }
}

/// The entries before a list of committed edits, undone from the last to the first.
pub open spec fn undo_all(
    entries: Map<Seq<char>, EntryView>,
    applied: Seq<AppliedView>,
) -> Result<Map<Seq<char>, EntryView>, Refusal>
    decreases applied.len(),
{
    if applied.len() == 0 {
        Ok(entries)
    } else {
        match undo_edit(entries, applied.last()) {
            Err(e) => Err(e),
            Ok(m) => undo_all(m, applied.drop_last()),
        }
    }
}

/// The record of undoing a committed edit.
pub open spec fn inverted(edit: AppliedView) -> AppliedView {
    AppliedView {
        index: edit.index,
        entry_id: edit.entry_id,
        action: edit.action.inverse(),
        before: edit.after,
        after: edit.before,
    }
}

/// The records of undoing a list of committed edits, from the last to the first.
pub open spec fn inverted_all(applied: Seq<AppliedView>) -> Seq<AppliedView> {
    Seq::new(applied.len(), |i: int| inverted(applied[applied.len() - 1 - i]))
}

/// The first `n` characters of a text, or all of it.
pub open spec fn head_of(text: Seq<char>, n: int) -> Seq<char> {
    if text.len() <= n {
        text
    } else {
        text.take(n)
    }
}

/// The event of a rollback, before it has an identity.
pub open spec fn rollback_event(
    state: StateView,
    event: EventView,
    reason: Seq<char>,
    now_ms: u64,
) -> EventView {
    EventView {
        schema_version: REFINEMENT_EVENT_SCHEMA_VERSION,
        event_id: Seq::empty(),
        scope: state.scope,
        kind: EventKindView::Rollback { of_event_id: event.event_id },
        based_on_revision: state.revision,
        resulting_revision: (state.revision + 1) as u64,
        summary: "rollback of refinement "@ + head_of(event.event_id, 15),
        rationale: reason,
        expected_outcome: "restore the exact pre-refinement harness entries"@,
        applied: inverted_all(event.applied),
        rejected: Seq::empty(),
        evidence: seq![
            EvidenceView { kind: HarnessEvidenceKind::Refinement, reference: event.event_id },
        ],
        created_at_ms: now_ms,
    }
}

/// What rolling an event back gives: the next ledger and its event, or why it is refused.
pub open spec fn rollback_outcome(
    state: StateView,
    event: EventView,
    reason: Seq<char>,
    now_ms: u64,
) -> Result<(StateView, EventView), Refusal> {
    match first_of(
        event.fault(),
        text_fault(reason, MAX_REFINEMENT_TEXT_BYTES, "rollback reason"@, true),
    ) {
        Some(e) => Err(e),
        None => if event.scope != state.scope {
            Err(
                Refusal::ScopeMismatch {
                    expected: state.scope.text(),
                    actual: event.scope.text(),
                },
            )
        } else if !(event.kind is Applied) {
            Err(
                Refusal::RollbackConflict(
                    "only an applied refinement event can be rolled back"@,
                ),
            )
        } else {
            match undo_all(state.entries, event.applied) {
                Err(e) => Err(e),
                Ok(entries) => advanced(
                    state,
                    rollback_event(state, event, reason, now_ms),
                    entries,
                ),
            }
        },
    }
}

/// Whether nothing stands against applying a proposal: the ledger and the proposal are valid, a
/// revision is left, and the event can cite the evidence. What becomes of single edits does not
/// count.
pub open spec fn apply_ready(
    state: StateView,
    proposal: ProposalView,
    source: Seq<char>,
    evidence: nat,
) -> bool {
    &&& state.fault() is None
    &&& state.revision < u64::MAX
    &&& proposal.fault() is None
    &&& text_fault(source, MAX_ENTRY_SOURCE_BYTES, "refinement source"@, true) is None
    &&& evidence <= MAX_HARNESS_EVIDENCE_REFS
}

/// Whether nothing stands against rolling an event back: it is a valid applied event of the
/// ledger's scope that committed something, a revision is left, and undoing it meets no later
/// change and leaves a valid ledger.
pub open spec fn rollback_ready(state: StateView, event: EventView, reason: Seq<char>) -> bool {
    &&& state.scope.fault() is None
    &&& state.revision < u64::MAX
    &&& event.fault() is None
    &&& event.scope == state.scope
    &&& event.kind is Applied
    &&& event.applied.len() > 0
    &&& text_fault(reason, MAX_REFINEMENT_TEXT_BYTES, "rollback reason"@, true) is None
    &&& undo_all(state.entries, event.applied) matches Ok(entries) && (StateView {
        revision: (state.revision + 1) as u64,
        entries,
        ..state
    }).fault() is None
}

/// What a transition gives, seen from outside.
pub open spec fn transition(
    r: Result<(EvolutionState, RefinementEvent), EvolutionError>,
) -> Result<(StateView, EventView), Refusal> {
    match r {
        Ok((state, event)) => Ok((state@, event@)),
        Err(e) => Err(e@),
    }
}

/// Copies the entries of a ledger.
pub fn duplicate_entries(entries: &TextMap<HarnessEntry>) -> (r: TextMap<HarnessEntry>)
    ensures
        entry_views(r@) == entry_views(entries@),
{
    let n: usize = entries.len();
    let ghost keys = entries.keys();
    let mut out: TextMap<HarnessEntry> = TextMap::new();
    let mut i: usize = 0;
    while i < n
        invariant
            i <= n,
            n == keys.len(),
            keys == entries.keys(),
            forall|k: Seq<char>|
                #[trigger] out@.dom().contains(k) <==> exists|j: int|
                    0 <= j < i && #[trigger] keys[j] == k,
            forall|k: Seq<char>|
                #[trigger] out@.dom().contains(k) ==> entries@.dom().contains(k) && out@[k]@
                    == entries@[k]@,
        decreases n - i,
    {
        let key = entries.key_at(i);
        let entry = entries.value_at(i);
        let ghost before = out@;
        out.insert(key, entry.duplicate());
        proof {
            assert forall|k: Seq<char>| #[trigger] out@.dom().contains(k) <==> exists|j: int|
                0 <= j < i + 1 && #[trigger] keys[j] == k by {
                if out@.dom().contains(k) {
                    if k == key@ {
                        assert(keys[i as int] == k);
                    } else {
                        assert(before.dom().contains(k));
                        let j = choose|j: int| 0 <= j < i && #[trigger] keys[j] == k;
                        assert(0 <= j < i + 1 && keys[j] == k);
                    }
                }
                if exists|j: int| 0 <= j < i + 1 && #[trigger] keys[j] == k {
                    let j = choose|j: int| 0 <= j < i + 1 && #[trigger] keys[j] == k;
                    if j < i {
                        assert(before.dom().contains(k));
                    }
                }
            }
        }
        i += 1;
    }
    proof {
        assert(entry_views(out@) =~= entry_views(entries@)) by {
            assert forall|k: Seq<char>| out@.dom().contains(k) <==> entries@.dom().contains(
                k,
            ) by {
                if entries@.dom().contains(k) {
                    assert(keys.contains(k));
                    let j = choose|j: int| 0 <= j < keys.len() && keys[j] == k;
                    assert(0 <= j < n && keys[j] == k);
                }
            }
        }
    }
    out
}

/// The refusal to roll back over a later change.
fn rollback_conflict(entry_id: &str) -> (r: EvolutionError)
    ensures
        r@ == conflict(entry_id@),
{
    EvolutionError::RollbackConflict(
        joined3("entry '", entry_id, "' changed after the event being rolled back"),
    )
}

/// Undoes one committed edit, when nothing has touched its entry since.
fn undo(entries: &mut TextMap<HarnessEntry>, edit: &AppliedEdit) -> (r: Result<(), EvolutionError>)
    ensures
        match undo_edit(entry_views(old(entries)@), edit@) {
            Ok(m) => r is Ok && entry_views(final(entries)@) == m,
            Err(e) => refusal(r) == Some(e),
        },
{
    let ghost views = entry_views(entries@);
    let id = edit.entry_id.as_str();
    if edit.before.is_none() && edit.after.is_none() {
        return Err(
            EvolutionError::RollbackConflict("an applied edit records no snapshots".to_owned()),
        );
    }
    let untouched = match (entries.get(id), &edit.after) {
        (None, None) => true,
        (Some(a), Some(b)) => a.same(b),
        _ => false,
    };
    assert(views.dom() =~= entries@.dom());
    assert(untouched == (current(views, id@) == edit@.after));
    if !untouched {
        return Err(rollback_conflict(id));
    }
    match &edit.before {
        Some(before) => {
            entries.insert(id, before.duplicate());
            proof {
                assert(entry_views(entries@) =~= views.insert(id@, before@));
            }
        },
        None => {
            entries.remove(id);
            proof {
                assert(entry_views(entries@) =~= views.remove(id@));
            }
        },
    }
    Ok(())
}

impl EvolutionState {
    /// A ledger holds finitely many entries.
    pub proof fn lemma_finite(&self)
        ensures
            self@.entries.dom().finite(),
    {
        self.entries.lemma_finite();
        assert(self@.entries.dom() =~= self.entries@.dom());
    }

    /// An empty ledger at revision zero.
    pub fn new(scope: HarnessScope) -> (r: Result<EvolutionState, EvolutionError>)
        ensures
            match r {
                Ok(state) => scope@.fault() is None && state@ == (StateView {
                    schema_version: EVOLUTION_STATE_SCHEMA_VERSION,
                    scope: scope@,
                    revision: 0,
                    entries: Map::empty(),
                }) && state@.fault() is None,
                Err(e) => scope@.fault() == Some(e@),
            },
    {
        scope.validate()?;
        let entries: TextMap<HarnessEntry> = TextMap::new();
        let n: usize = entries.len();
        let state = EvolutionState {
            schema_version: EVOLUTION_STATE_SCHEMA_VERSION,
            scope,
            revision: 0,
            entries,
        };
        proof {
            assert(state@.entries =~= Map::empty());
            assert(n == 0);
            assert(state@.entries.dom() =~= Set::empty());
            assert(sorted_keys(state@.entries.dom()) =~= Seq::empty());
        }
        Ok(state)
    }

    pub fn schema_version(&self) -> (r: u32)
        ensures
            r == self@.schema_version,
    {
        self.schema_version
    }

    pub fn scope(&self) -> (r: &HarnessScope)
        ensures
            r@ == self@.scope,
    {
        &self.scope
    }

    pub fn revision(&self) -> (r: u64)
        ensures
            r == self@.revision,
    {
        self.revision
    }

    /// The entries, in the order of their identifiers.
    pub fn entries(&self) -> (r: Vec<&HarnessEntry>)
        ensures
            r@.len() == sorted_keys(self@.entries.dom()).len(),
            forall|i: int|
                0 <= i < r@.len() ==> (#[trigger] r@[i])@ == self@.entries[sorted_keys(
                    self@.entries.dom(),
                )[i]],
    {
        let n: usize = self.entries.len();
        proof {
            assert(self@.entries.dom() =~= self.entries@.dom());
        }
        let ghost keys = self.entries.keys();
        let mut out: Vec<&HarnessEntry> = Vec::new();
        let mut i: usize = 0;
        while i < n
            invariant
                i <= n,
                n == keys.len(),
                keys == self.entries.keys(),
                out@.len() == i,
                forall|j: int| 0 <= j < i ==> (#[trigger] out@[j])@ == self@.entries[keys[j]],
            decreases n - i,
        {
            let entry = self.entries.value_at(i);
            assert(self@.entries[keys[i as int]] == entry@);
            out.push(entry);
            i += 1;
        }
        out
    }

    pub fn entry(&self, id: &str) -> (r: Option<&HarnessEntry>)
        ensures
            match r {
                Some(e) => current(self@.entries, id@) == Some(e@),
                None => current(self@.entries, id@) is None,
            },
    {
        proof {
            assert(self@.entries.dom() =~= self.entries@.dom());
        }
        self.entries.get(id)
    }

    pub fn is_empty(&self) -> (r: bool)
        ensures
            r == (self@.entries == Map::<Seq<char>, EntryView>::empty()),
    {
        let r = self.entries.is_empty();
        proof {
            assert(self@.entries.dom() =~= self.entries@.dom());
            if r {
                assert(self@.entries =~= Map::<Seq<char>, EntryView>::empty());
            } else if self@.entries == Map::<Seq<char>, EntryView>::empty() {
                assert(self.entries@ =~= Map::<Seq<char>, HarnessEntry>::empty());
            }
        }
        r
    }

    pub fn len(&self) -> (r: usize)
        ensures
            r == self@.entries.dom().len(),
    {
        proof {
            assert(self@.entries.dom() =~= self.entries@.dom());
        }
        self.entries.len()
    }

    /// Applies a proposal with per-edit isolation: each valid edit commits, each invalid edit
    /// is recorded as refused, and the revision advances once.
    #[verifier::loop_isolation(false)]
    #[verifier::spinoff_prover]
    #[verifier::rlimit(60)]
    pub fn apply(
        &self,
        proposal: &RefinementProposal,
        source: &str,
        evidence: Vec<HarnessEvidenceRef>,
        now_ms: u64,
    ) -> (r: Result<(EvolutionState, RefinementEvent), EvolutionError>)
        ensures
            transition(r) == apply_outcome(
                self@,
                proposal@,
                source@,
                evidence_views(evidence@),
                now_ms,
            ),
            r matches Ok((_, event)) ==> sha256_id(event@.event_id) && event_tame(event@)
                && identity_reads_back(event@),
            apply_ready(self@, proposal@, source@, evidence@.len()) ==> r is Ok,
    {
        proof {
            if apply_ready(self@, proposal@, source@, evidence@.len()) {
                self.lemma_finite();
                law_valid_proposals_are_applied(
                    self@,
                    proposal@,
                    source@,
                    evidence_views(evidence@),
                    now_ms,
                );
            }
        }
        proposal.validate()?;
        validate_text(source, MAX_ENTRY_SOURCE_BYTES, "refinement source", true)?;
        assert(proposal@.edits.len() <= MAX_REFINEMENT_EDITS);
        let mut entries = duplicate_entries(&self.entries);
        let mut applied: Vec<AppliedEdit> = Vec::new();
        let mut rejected: Vec<RejectedEdit> = Vec::new();
        let mut index: u32 = 0;
        let ghost edits = proposal@.edits;
        proof {
            assert(applied_views(applied@) =~= Seq::empty());
            assert(rejected_views(rejected@) =~= Seq::empty());
        }
        while (index as usize) < proposal.edits.len()
            invariant
                index <= edits.len() <= MAX_REFINEMENT_EDITS,
                edits.len() == proposal.edits@.len(),
                edits == proposal@.edits,
                progress(self@.entries, edits, source@, now_ms, index as nat) == (Progress {
                    entries: entry_views(entries@),
                    applied: applied_views(applied@),
                    rejected: rejected_views(rejected@),
                }),
            decreases edits.len() - index,
        {
            let edit = &proposal.edits[index as usize];
            let ghost was_applied = applied_views(applied@);
            let ghost was_rejected = rejected_views(rejected@);
            assert(edits[index as int] == edit@);
            match apply_edit(&mut entries, edit, source, now_ms) {
                Ok((entry_id, before, after)) => {
                    applied.push(
                        AppliedEdit { index, entry_id, action: edit.action, before, after },
                    );
                    proof {
                        assert(applied_views(applied@) =~= was_applied.push(applied@.last()@));
                    }
                },
                Err(error) => {
                    rejected.push(
                        RejectedEdit {
                            index,
                            entry_id: duplicate_text(&edit.id),
                            error: keep_head(error.describe().as_str(), MAX_REFINEMENT_TEXT_BYTES),
                        },
                    );
                    proof {
                        assert(rejected_views(rejected@) =~= was_rejected.push(rejected@.last()@));
                    }
                },
            }
            index += 1;
        }
        let draft = EventDraft {
            scope: self.scope.duplicate(),
            kind: RefinementEventKind::Applied,
            based_on_revision: self.revision,
            summary: proposal.summary.clone(),
            rationale: proposal.rationale.clone(),
            expected_outcome: proposal.expected_outcome.clone(),
            applied,
            rejected,
            evidence,
            created_at_ms: now_ms,
        };
        proof {
            let p = progress(self@.entries, edits, source@, now_ms, edits.len());
            assert(draft.named(Seq::empty()) == applied_event(
                self@,
                proposal@,
                p,
                evidence_views(evidence@),
                now_ms,
            ));
        }
        let event = RefinementEvent::build(draft)?;
        let state = EvolutionState {
            schema_version: self.schema_version,
            scope: self.scope.duplicate(),
            revision: event.resulting_revision,
            entries,
        };
        state.validate()?;
        Ok((state, event))
    }

    /// Reverses one applied event, all or nothing: an entry touched since the event refuses
    /// the whole rollback.
    #[verifier::loop_isolation(false)]
    #[verifier::spinoff_prover]
    #[verifier::rlimit(60)]
    pub fn rollback(
        &self,
        event: &RefinementEvent,
        reason: &str,
        now_ms: u64,
    ) -> (r: Result<(EvolutionState, RefinementEvent), EvolutionError>)
        ensures
            transition(r) == rollback_outcome(self@, event@, reason@, now_ms),
            r matches Ok((_, undone)) ==> sha256_id(undone@.event_id) && event_tame(undone@)
                && identity_reads_back(undone@),
            rollback_ready(self@, event@, reason@) ==> r is Ok,
    {
        event.validate()?;
        proof {
            if rollback_ready(self@, event@, reason@) {
                lemma_rollback_event(
                    self@,
                    event@,
                    reason@,
                    now_ms,
                    event_identity(rollback_event(self@, event@, reason@, now_ms)),
                );
            }
        }
        validate_text(reason, MAX_REFINEMENT_TEXT_BYTES, "rollback reason", true)?;
        if !event.scope.same(&self.scope) {
            return Err(
                EvolutionError::ScopeMismatch {
                    expected: self.scope.to_text(),
                    actual: event.scope.to_text(),
                },
            );
        }
        match event.kind {
            RefinementEventKind::Applied => {},
            RefinementEventKind::Rollback { .. } => {
                return Err(
                    EvolutionError::RollbackConflict(
                        "only an applied refinement event can be rolled back".to_owned(),
                    ),
                );
            },
        }
        let mut entries = duplicate_entries(&self.entries);
        let mut inverse: Vec<AppliedEdit> = Vec::new();
        let ghost all = event@.applied;
        let mut left: usize = event.applied.len();
        proof {
            assert(all.take(left as int) =~= all);
        }
        while left > 0
            invariant
                left <= event.applied@.len(),
                all == event@.applied,
                all.len() == event.applied@.len(),
                undo_all(self@.entries, all) == undo_all(
                    entry_views(entries@),
                    all.take(left as int),
                ),
                applied_views(inverse@) == inverted_all(all).take(all.len() - left),
            decreases left,
        {
            let edit = &event.applied[left - 1];
            let ghost before = applied_views(inverse@);
            proof {
                assert(all.take(left as int).last() == edit@);
                assert(all.take(left as int).drop_last() =~= all.take(left - 1));
            }
            undo(&mut entries, edit)?;
            inverse.push(
                AppliedEdit {
                    index: edit.index,
                    entry_id: edit.entry_id.clone(),
                    action: edit.action.inverted(),
                    before: duplicate_entry(&edit.after),
                    after: duplicate_entry(&edit.before),
                },
            );
            proof {
                assert(inverse@.last()@ == inverted(edit@));
                assert(applied_views(inverse@) =~= before.push(inverse@.last()@));
                assert(inverted_all(all).take(all.len() - left + 1) =~= inverted_all(all).take(
                    all.len() - left,
                ).push(inverted(edit@)));
            }
            left -= 1;
        }
        proof {
            assert(inverted_all(all).take(all.len() as int) =~= inverted_all(all));
            lemma_valid_event_has_identity(event@);
        }
        let cited = HarnessEvidenceRef::new(
            HarnessEvidenceKind::Refinement,
            event.event_id.as_str(),
        )?;
        let evidence: Vec<HarnessEvidenceRef> = vec![cited];
        let id_chars = chars_of(event.event_id.as_str());
        let head: usize = if id_chars.len() <= 15 {
            id_chars.len()
        } else {
            15
        };
        let short = text_of(&id_chars, 0, head);
        let draft = EventDraft {
            scope: self.scope.duplicate(),
            kind: RefinementEventKind::Rollback { of_event_id: event.event_id.clone() },
            based_on_revision: self.revision,
            summary: joined("rollback of refinement ", short.as_str()),
            rationale: reason.to_owned(),
            expected_outcome: "restore the exact pre-refinement harness entries".to_owned(),
            applied: inverse,
            rejected: Vec::new(),
            evidence,
            created_at_ms: now_ms,
        };
        proof {
            assert(short@ =~= head_of(event@.event_id, 15));
            assert(evidence_views(evidence@) =~= seq![
                EvidenceView {
                    kind: HarnessEvidenceKind::Refinement,
                    reference: event@.event_id,
                },
            ]);
            assert(draft.named(Seq::empty()).rejected =~= Seq::empty());
            assert(draft.named(Seq::empty()) == rollback_event(self@, event@, reason@, now_ms));
        }
        let rolled_back = RefinementEvent::build(draft)?;
        let state = EvolutionState {
            schema_version: self.schema_version,
            scope: self.scope.duplicate(),
            revision: rolled_back.resulting_revision,
            entries,
        };
        state.validate()?;
        Ok((state, rolled_back))
    }

    /// Checks the ledger.
    #[verifier::loop_isolation(false)]
    pub fn validate(&self) -> (r: Result<(), EvolutionError>)
        ensures
            refusal(r) == self@.fault(),
    {
        if self.schema_version != EVOLUTION_STATE_SCHEMA_VERSION {
            let mut out = "unsupported evolution state schema ".to_owned();
            push_decimal(&mut out, self.schema_version as u64);
            return Err(EvolutionError::Invalid(out));
        }
        self.scope.validate()?;
        let n: usize = self.entries.len();
        let ghost keys = self.entries.keys();
        proof {
            assert(self@.entries.dom() =~= self.entries@.dom());
        }
        if n > MAX_HARNESS_ENTRIES_PER_SCOPE {
            let mut out = "a scope holds ".to_owned();
            push_decimal(&mut out, n as u64);
            out.append(" entries; maximum is ");
            push_decimal(&mut out, MAX_HARNESS_ENTRIES_PER_SCOPE as u64);
            return Err(EvolutionError::Invalid(out));
        }
        if text_total(&self.entries) > MAX_HARNESS_SCOPE_CONTENT_BYTES {
            let mut out = "a scope's entry text exceeds ".to_owned();
            push_decimal(&mut out, MAX_HARNESS_SCOPE_CONTENT_BYTES as u64);
            out.append(" bytes");
            return Err(EvolutionError::Invalid(out));
        }
        let mut i: usize = 0;
        proof {
            assert(keys.skip(0) =~= keys);
        }
        while i < n
            invariant
                i <= n,
                n == keys.len(),
                keys == self.entries.keys(),
                entries_fault(keys, self@.entries) == entries_fault(
                    keys.skip(i as int),
                    self@.entries,
                ),
            decreases n - i,
        {
            let key = self.entries.key_at(i);
            let entry = self.entries.value_at(i);
            proof {
                assert(keys.skip(i as int)[0] == key@);
                assert(keys.skip(i as int).drop_first() =~= keys.skip(i + 1));
                assert(self@.entries[key@] == entry@);
            }
            entry.validate()?;
            if !same_text(key, entry.id.as_str()) {
                return Err(invalid("an entry is stored under a foreign ID"));
            }
            i += 1;
        }
        Ok(())
    }
}

/// A valid event carries an identity that is not blank.
proof fn lemma_valid_event_has_identity(e: EventView)
    requires
        e.fault() is None,
    ensures
        !is_blank(e.event_id),
{
    reveal_strlit("sha256:");
    assert(event_identity(e) == e.event_id);
    assert(e.event_id[0] == 's');
    assert(!is_whitespace(e.event_id[0]));
}

/// Undoing what a proposal committed gives back the entries that it started from.
pub proof fn law_undo_restores(
    entries: Map<Seq<char>, EntryView>,
    edits: Seq<EditView>,
    source: Seq<char>,
    now_ms: u64,
    n: nat,
)
    requires
        n <= edits.len(),
    ensures
        ({
            let p = progress(entries, edits, source, now_ms, n);
            undo_all(p.entries, p.applied) == Ok::<Map<Seq<char>, EntryView>, Refusal>(entries)
        }),
    decreases n,
{
    if n > 0 {
        let before = progress(entries, edits, source, now_ms, (n - 1) as nat);
        let after = progress(entries, edits, source, now_ms, n);
        law_undo_restores(entries, edits, source, now_ms, (n - 1) as nat);
        match edit_effect(before.entries, edits[n - 1], source, now_ms) {
            Ok(effect) => {
                assert(after.applied.drop_last() =~= before.applied);
                assert(with_effect(after.entries, effect.id, effect.before) =~= before.entries);
            },
            Err(_) => {},
        }
    }
}

/// Every edit of a proposal is either committed or refused, and is recorded once.
pub proof fn law_every_edit_is_recorded(
    entries: Map<Seq<char>, EntryView>,
    edits: Seq<EditView>,
    source: Seq<char>,
    now_ms: u64,
    n: nat,
)
    requires
        n <= edits.len(),
    ensures
        ({
            let p = progress(entries, edits, source, now_ms, n);
            p.applied.len() + p.rejected.len() == n
        }),
    decreases n,
{
    if n > 0 {
        law_every_edit_is_recorded(entries, edits, source, now_ms, (n - 1) as nat);
    }
}

/// A refused edit leaves the entries as they were, whatever came before it.
pub proof fn law_refused_edits_change_nothing(
    entries: Map<Seq<char>, EntryView>,
    edits: Seq<EditView>,
    source: Seq<char>,
    now_ms: u64,
    n: nat,
)
    requires
        0 < n <= edits.len(),
        edit_effect(
            progress(entries, edits, source, now_ms, (n - 1) as nat).entries,
            edits[n - 1],
            source,
            now_ms,
        ) is Err,
    ensures
        progress(entries, edits, source, now_ms, n).entries == progress(
            entries,
            edits,
            source,
            now_ms,
            (n - 1) as nat,
        ).entries,
        progress(entries, edits, source, now_ms, n).applied == progress(
            entries,
            edits,
            source,
            now_ms,
            (n - 1) as nat,
        ).applied,
{
}

/// A committed transition is valid, stays in its scope and advances the revision by one; its
/// event names both revisions.
pub proof fn law_transitions_advance_by_one(
    state: StateView,
    event: EventView,
    entries: Map<Seq<char>, EntryView>,
)
    requires
        event.scope == state.scope,
        event.based_on_revision == state.revision,
        event.resulting_revision == (state.revision + 1) as u64,
    ensures
        advanced(state, event, entries) matches Ok((next, built)) ==> {
            &&& next.fault() is None
            &&& next.revision == state.revision + 1
            &&& next.scope == state.scope
            &&& next.entries == entries
            &&& built.based_on_revision == state.revision
            &&& built.resulting_revision == next.revision
        },
{
}

} // verus!
