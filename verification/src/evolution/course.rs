//! The course of a ledger's entries: what a proposal leaves of them, what its event tells, and
//! what a rollback brings back.

use crate::evolution::edit::{
    budget_fault, edit_effect, edits_fault, law_creates_make_what_they_carry,
    law_deletes_leave_nothing, law_updates_change_what_they_carry, total_bytes, with_effect,
    EditView, ProposalView, RefinementAction,
};
use crate::evolution::entry::{entry_id, EntryView};
use crate::evolution::event::{
    event_identity, event_indexes, AppliedView, EventKindView, EventView,
};
use crate::evolution::state::{
    apply_outcome, current, progress, rollback_outcome, undo_all, undo_edit, StateView,
};
use crate::evolution::{
    text_fault, MAX_HARNESS_ENTRIES_PER_SCOPE, MAX_HARNESS_EVIDENCE_REFS,
    MAX_HARNESS_SCOPE_CONTENT_BYTES, MAX_REFINEMENT_EDITS, MAX_REFINEMENT_TEXT_BYTES,
};
use crate::harness::EvidenceView;
use crate::text::{contains_text, is_blank, utf8_len};
use vstd::prelude::*;

verus! {

/// Whether a record tells of an edit that was carried out at a time on behalf of a source: it
/// names the edit's action and entry; what was created is what the edit carries; what was updated
/// holds what the edit carries and otherwise what it held; and what was deleted is gone.
pub open spec fn carried_out(
    edit: EditView,
    record: AppliedView,
    source: Seq<char>,
    now_ms: u64,
) -> bool {
    let was = record.before->Some_0;
    let is = record.after->Some_0;
    &&& record.action == edit.action
    &&& edit.id is Some ==> edit.id == Some(record.entry_id)
    &&& record.before is None <==> edit.action is Create
    &&& record.after is None <==> edit.action is Delete
    &&& edit.action is Create ==> {
        &&& is.id == record.entry_id
        &&& edit.title == Some(is.title)
        &&& edit.content == Some(is.content)
        &&& is.skill == edit.skill
        &&& is.version == 1
        &&& is.created_at_ms == now_ms
    }
    &&& edit.action is Update ==> {
        &&& edit.title is Some ==> edit.title == Some(is.title)
        &&& edit.title is None ==> is.title == was.title
        &&& edit.content is Some ==> edit.content == Some(is.content)
        &&& edit.content is None ==> is.content == was.content
        &&& edit.skill is Some ==> is.skill == edit.skill
        &&& edit.skill is None ==> is.skill == was.skill
        &&& is.id == was.id
        &&& is.version == was.version + 1
        &&& is.created_at_ms == was.created_at_ms
    }
    &&& !(edit.action is Delete) ==> {
        &&& is.kind == edit.kind
        &&& is.source == source
        &&& is.updated_at_ms == now_ms
    }
    &&& !(edit.action is Create) ==> {
        &&& was.kind == edit.kind
        &&& edit.expected_version is Some ==> edit.expected_version == Some(was.version)
    }
}

/// Whether no record is of an entry.
pub open spec fn untouched(applied: Seq<AppliedView>, id: Seq<char>) -> bool {
    forall|k: int| 0 <= k < applied.len() ==> (#[trigger] applied[k]).entry_id != id
}

/// Whether a record is the first one of its entry.
pub open spec fn first_touch(applied: Seq<AppliedView>, k: int) -> bool {
    &&& 0 <= k < applied.len()
    &&& forall|j: int| 0 <= j < k ==> (#[trigger] applied[j]).entry_id != applied[k].entry_id
}

/// Whether a record is the last one of its entry.
pub open spec fn last_touch(applied: Seq<AppliedView>, k: int) -> bool {
    &&& 0 <= k < applied.len()
    &&& forall|j: int|
        k < j < applied.len() ==> (#[trigger] applied[j]).entry_id != applied[k].entry_id
}

/// Whether records lead from entries to entries: an entry that no record is of stands as it did;
/// the first record of another one names what it was, and the last one what it has become.
pub open spec fn leads(
    from: Map<Seq<char>, EntryView>,
    applied: Seq<AppliedView>,
    to: Map<Seq<char>, EntryView>,
) -> bool {
    &&& forall|id: Seq<char>|
        #[trigger] untouched(applied, id) ==> current(to, id) == current(from, id)
    &&& forall|k: int|
        #[trigger] first_touch(applied, k) ==> current(from, applied[k].entry_id)
            == applied[k].before
    &&& forall|k: int|
        #[trigger] last_touch(applied, k) ==> current(to, applied[k].entry_id) == applied[k].after
}

proof fn lemma_carried_out(
    entries: Map<Seq<char>, EntryView>,
    edit: EditView,
    source: Seq<char>,
    now_ms: u64,
    index: u32,
)
    requires
        edit_effect(entries, edit, source, now_ms) is Ok,
    ensures
        ({
            let effect = edit_effect(entries, edit, source, now_ms)->Ok_0;
            let record = AppliedView {
                index,
                entry_id: effect.id,
                action: edit.action,
                before: effect.before,
                after: effect.after,
            };
            &&& carried_out(edit, record, source, now_ms)
            &&& current(entries, effect.id) == effect.before
        }),
{
    match edit.action {
        RefinementAction::Create => law_creates_make_what_they_carry(entries, edit, source, now_ms),
        RefinementAction::Update => law_updates_change_what_they_carry(
            entries,
            edit,
            source,
            now_ms,
        ),
        RefinementAction::Delete => law_deletes_leave_nothing(entries, edit, source, now_ms),
    }
}

proof fn lemma_lead_on(
    from: Map<Seq<char>, EntryView>,
    applied: Seq<AppliedView>,
    mid: Map<Seq<char>, EntryView>,
    record: AppliedView,
    to: Map<Seq<char>, EntryView>,
)
    requires
        leads(from, applied, mid),
        current(mid, record.entry_id) == record.before,
        current(to, record.entry_id) == record.after,
        forall|id: Seq<char>|
            id != record.entry_id ==> #[trigger] current(to, id) == current(mid, id),
    ensures
        leads(from, applied.push(record), to),
{
    let all = applied.push(record);
    let n = applied.len() as int;
    assert forall|id: Seq<char>| #[trigger] untouched(all, id) implies current(to, id) == current(
        from,
        id,
    ) by {
        assert(all[n].entry_id != id);
        assert(untouched(applied, id)) by {
            assert forall|k: int| 0 <= k < applied.len() implies (#[trigger] applied[k]).entry_id
                != id by {
                assert(all[k].entry_id != id);
            }
        }
    }
    assert forall|k: int| #[trigger] first_touch(all, k) implies current(from, all[k].entry_id)
        == all[k].before by {
        if k < n {
            assert(first_touch(applied, k)) by {
                assert forall|j: int| 0 <= j < k implies (#[trigger] applied[j]).entry_id
                    != applied[k].entry_id by {
                    assert(all[j].entry_id != all[k].entry_id);
                }
            }
        } else {
            assert(untouched(applied, record.entry_id)) by {
                assert forall|j: int| 0 <= j < n implies (#[trigger] applied[j]).entry_id
                    != record.entry_id by {
                    assert(all[j].entry_id != all[n].entry_id);
                }
            }
        }
    }
    assert forall|k: int| #[trigger] last_touch(all, k) implies current(to, all[k].entry_id)
        == all[k].after by {
        if k < n {
            assert(all[n].entry_id != all[k].entry_id);
            assert(last_touch(applied, k)) by {
                assert forall|j: int| k < j < n implies (#[trigger] applied[j]).entry_id
                    != applied[k].entry_id by {
                    assert(all[j].entry_id != all[k].entry_id);
                }
            }
        }
    }
}

/// The edits of a proposal are taken in their order. Each committed one is recorded under its
/// place, with what it was carried out to; each refused one is recorded under its place and the
/// identifier that it gave. The records lead from the entries before to those after.
#[verifier::spinoff_prover]
#[verifier::rlimit(40)]
pub proof fn law_records_lead_from_entries_to_entries(
    entries: Map<Seq<char>, EntryView>,
    edits: Seq<EditView>,
    source: Seq<char>,
    now_ms: u64,
    n: nat,
)
    requires
        n <= edits.len() <= u32::MAX,
    ensures
        ({
            let p = progress(entries, edits, source, now_ms, n);
            &&& leads(entries, p.applied, p.entries)
            &&& forall|k: int|
                0 <= k < p.applied.len() ==> (#[trigger] p.applied[k]).index < n && carried_out(
                    edits[p.applied[k].index as int],
                    p.applied[k],
                    source,
                    now_ms,
                )
            &&& forall|k: int|
                0 <= k < p.rejected.len() ==> (#[trigger] p.rejected[k]).index < n
                    && p.rejected[k].entry_id == edits[p.rejected[k].index as int].id
            &&& forall|j: int, k: int|
                0 <= j < k < p.applied.len() ==> (#[trigger] p.applied[j]).index < (
                #[trigger] p.applied[k]).index
            &&& forall|j: int, k: int|
                0 <= j < k < p.rejected.len() ==> (#[trigger] p.rejected[j]).index < (
                #[trigger] p.rejected[k]).index
            &&& forall|j: int, k: int|
                0 <= j < p.applied.len() && 0 <= k < p.rejected.len() ==> (
                #[trigger] p.applied[j]).index != (#[trigger] p.rejected[k]).index
            &&& p.applied.len() + p.rejected.len() == n
        }),
    decreases n,
{
    if n > 0 {
        let last = (n - 1) as nat;
        law_records_lead_from_entries_to_entries(entries, edits, source, now_ms, last);
        let p = progress(entries, edits, source, now_ms, last);
        let q = progress(entries, edits, source, now_ms, n);
        let edit = edits[n - 1];
        match edit_effect(p.entries, edit, source, now_ms) {
            Ok(effect) => {
                lemma_carried_out(p.entries, edit, source, now_ms, last as u32);
                let record = AppliedView {
                    index: last as u32,
                    entry_id: effect.id,
                    action: edit.action,
                    before: effect.before,
                    after: effect.after,
                };
                assert(q.applied == p.applied.push(record));
                assert(q.entries == with_effect(p.entries, effect.id, effect.after));
                lemma_lead_on(entries, p.applied, p.entries, record, q.entries);
            },
            Err(_) => {},
        }
    } else {
        let p = progress(entries, edits, source, now_ms, n);
        assert(leads(entries, p.applied, p.entries));
    }
}

/// An applied proposal moves its ledger on by one revision, in the same scope and schema, and its
/// event tells the proposal: its words, its evidence, its time, both revisions, and what became of
/// every edit. The records lead from the ledger before to the ledger after.
#[verifier::spinoff_prover]
#[verifier::rlimit(40)]
pub proof fn law_events_tell_what_was_applied(
    state: StateView,
    proposal: ProposalView,
    source: Seq<char>,
    evidence: Seq<EvidenceView>,
    now_ms: u64,
)
    requires
        proposal.edits.len() <= u32::MAX,
    ensures
        apply_outcome(state, proposal, source, evidence, now_ms) matches Ok((next, event)) ==> {
            &&& next.scope == state.scope
            &&& next.schema_version == state.schema_version
            &&& next.revision == state.revision + 1
            &&& leads(state.entries, event.applied, next.entries)
            &&& event.scope == state.scope
            &&& event.kind is Applied
            &&& event.based_on_revision == state.revision
            &&& event.resulting_revision == state.revision + 1
            &&& event.summary == proposal.summary
            &&& event.rationale == proposal.rationale
            &&& event.expected_outcome == proposal.expected_outcome
            &&& event.evidence == evidence
            &&& event.created_at_ms == now_ms
            &&& event.applied.len() + event.rejected.len() == proposal.edits.len()
            &&& forall|k: int|
                0 <= k < event.applied.len() ==> (#[trigger] event.applied[k]).index
                    < proposal.edits.len() && carried_out(
                    proposal.edits[event.applied[k].index as int],
                    event.applied[k],
                    source,
                    now_ms,
                )
            &&& forall|k: int|
                0 <= k < event.rejected.len() ==> (#[trigger] event.rejected[k]).index
                    < proposal.edits.len() && event.rejected[k].entry_id
                    == proposal.edits[event.rejected[k].index as int].id
        },
{
    law_records_lead_from_entries_to_entries(
        state.entries,
        proposal.edits,
        source,
        now_ms,
        proposal.edits.len(),
    );
}

proof fn lemma_undo_leads_back(entries: Map<Seq<char>, EntryView>, applied: Seq<AppliedView>)
    ensures
        undo_all(entries, applied) matches Ok(back) ==> {
            &&& forall|id: Seq<char>|
                #[trigger] untouched(applied, id) ==> current(back, id) == current(entries, id)
            &&& forall|k: int|
                #[trigger] first_touch(applied, k) ==> current(back, applied[k].entry_id)
                    == applied[k].before
            &&& forall|k: int|
                #[trigger] last_touch(applied, k) ==> current(entries, applied[k].entry_id)
                    == applied[k].after
        },
    decreases applied.len(),
{
    if applied.len() > 0 && undo_all(entries, applied) is Ok {
        let n = applied.len() - 1;
        let head = applied.drop_last();
        let record = applied.last();
        let mid = undo_edit(entries, record)->Ok_0;
        let back = undo_all(entries, applied)->Ok_0;
        lemma_undo_leads_back(mid, head);
        assert(current(mid, record.entry_id) == record.before);
        assert forall|id: Seq<char>| id != record.entry_id implies #[trigger] current(mid, id)
            == current(entries, id) by {}
        assert forall|id: Seq<char>| #[trigger] untouched(applied, id) implies current(back, id)
            == current(entries, id) by {
            assert(applied[n].entry_id != id);
            assert(untouched(head, id)) by {
                assert forall|k: int| 0 <= k < head.len() implies (#[trigger] head[k]).entry_id
                    != id by {
                    assert(applied[k].entry_id != id);
                }
            }
        }
        assert forall|k: int| #[trigger] first_touch(applied, k) implies current(
            back,
            applied[k].entry_id,
        ) == applied[k].before by {
            if k < n {
                assert(first_touch(head, k)) by {
                    assert forall|j: int| 0 <= j < k implies (#[trigger] head[j]).entry_id
                        != head[k].entry_id by {
                        assert(applied[j].entry_id != applied[k].entry_id);
                    }
                }
            } else {
                assert(untouched(head, record.entry_id)) by {
                    assert forall|j: int| 0 <= j < n implies (#[trigger] head[j]).entry_id
                        != record.entry_id by {
                        assert(applied[j].entry_id != applied[n].entry_id);
                    }
                }
            }
        }
        assert forall|k: int| #[trigger] last_touch(applied, k) implies current(
            entries,
            applied[k].entry_id,
        ) == applied[k].after by {
            if k < n {
                assert(applied[n].entry_id != applied[k].entry_id);
                assert(last_touch(head, k)) by {
                    assert forall|j: int| k < j < n implies (#[trigger] head[j]).entry_id
                        != head[k].entry_id by {
                        assert(applied[j].entry_id != applied[k].entry_id);
                    }
                }
            }
        }
    }
}

/// A rollback succeeds only where every entry that the event is of still is what the event made of
/// it. Then each of them is again what it was before the event, and every other entry stands as it
/// did: later work on other entries is kept. The ledger moves on by one revision, and the event of
/// the rollback names the event that it undoes, the reason and the time, and lists the records from
/// the last to the first, each with its two snapshots exchanged and its action turned round.
#[verifier::spinoff_prover]
#[verifier::rlimit(40)]
pub proof fn law_rollbacks_bring_back_what_was(
    state: StateView,
    event: EventView,
    reason: Seq<char>,
    now_ms: u64,
)
    ensures
        rollback_outcome(state, event, reason, now_ms) matches Ok((next, undone)) ==> {
            &&& event.scope == state.scope
            &&& event.kind is Applied
            &&& next.scope == state.scope
            &&& next.schema_version == state.schema_version
            &&& next.revision == state.revision + 1
            &&& forall|id: Seq<char>|
                #[trigger] untouched(event.applied, id) ==> current(next.entries, id) == current(
                    state.entries,
                    id,
                )
            &&& forall|k: int|
                #[trigger] first_touch(event.applied, k) ==> current(
                    next.entries,
                    event.applied[k].entry_id,
                ) == event.applied[k].before
            &&& forall|k: int|
                #[trigger] last_touch(event.applied, k) ==> current(
                    state.entries,
                    event.applied[k].entry_id,
                ) == event.applied[k].after
            &&& undone.kind == (EventKindView::Rollback { of_event_id: event.event_id })
            &&& undone.scope == state.scope
            &&& undone.based_on_revision == state.revision
            &&& undone.resulting_revision == state.revision + 1
            &&& undone.rationale == reason
            &&& undone.created_at_ms == now_ms
            &&& undone.rejected.len() == 0
            &&& undone.evidence.len() == 1
            &&& undone.evidence[0].reference == event.event_id
            &&& undone.applied.len() == event.applied.len()
            &&& forall|k: int|
                0 <= k < event.applied.len() ==> {
                    let was = #[trigger] event.applied[k];
                    let turned = undone.applied[event.applied.len() - 1 - k];
                    &&& turned.index == was.index
                    &&& turned.entry_id == was.entry_id
                    &&& turned.before == was.after
                    &&& turned.after == was.before
                    &&& turned.action is Create <==> was.action is Delete
                    &&& turned.action is Delete <==> was.action is Create
                }
        },
{
    lemma_undo_leads_back(state.entries, event.applied);
}

/// A rollback is refused over a later change: where some entry is no longer what the event made of
/// it, no ledger comes of it.
pub proof fn law_rollbacks_stop_at_later_changes(
    state: StateView,
    event: EventView,
    reason: Seq<char>,
    now_ms: u64,
    k: int,
)
    requires
        last_touch(event.applied, k),
        current(state.entries, event.applied[k].entry_id) != event.applied[k].after,
    ensures
        rollback_outcome(state, event, reason, now_ms) is Err,
{
    law_rollbacks_bring_back_what_was(state, event, reason, now_ms);
}

/// An edit is in order only where its shape is that of its action: a create carries a title and
/// content, an update names an entry and carries something new, and a delete names an entry and
/// carries nothing. An identifier that it gives can identify an entry.
pub proof fn law_edits_have_the_shape_of_their_action(edit: EditView)
    requires
        edit.fault() is None,
    ensures
        edit.action is Create ==> edit.title is Some && edit.content is Some,
        edit.action is Update ==> edit.id is Some && (edit.title is Some || edit.content is Some
            || edit.skill is Some),
        edit.action is Delete ==> edit.id is Some && edit.title is None && edit.content is None
            && edit.skill is None,
        edit.id is Some ==> entry_id(edit.id->Some_0),
{
}

/// Entries are within the budgets of a ledger exactly where there are no more of them than a scope
/// may hold and their texts together are no longer than it may hold.
pub proof fn law_budgets_bound_entries_and_text(entries: Map<Seq<char>, EntryView>)
    ensures
        budget_fault(entries) is None <==> entries.dom().len() <= MAX_HARNESS_ENTRIES_PER_SCOPE
            && total_bytes(entries) <= MAX_HARNESS_SCOPE_CONTENT_BYTES,
{
}

/// An event that is in order moves its ledger on by one revision, records at least one edit and no
/// more than a proposal may hold, none of them twice, cites no more than it may, and is named by
/// its own content.
pub proof fn law_events_are_named_by_their_content(event: EventView)
    requires
        event.fault() is None,
    ensures
        event.resulting_revision == event.based_on_revision + 1,
        0 < event.applied.len() + event.rejected.len() <= MAX_REFINEMENT_EDITS,
        event.evidence.len() <= MAX_HARNESS_EVIDENCE_REFS,
        event.event_id == event_identity(event),
        event.scope.fault() is None,
        forall|j: int, k: int|
            0 <= j < k < event.applied.len() ==> (#[trigger] event.applied[j]).index != (
            #[trigger] event.applied[k]).index,
        forall|j: int, k: int|
            0 <= j < event.applied.len() && 0 <= k < event.rejected.len() ==> (
            #[trigger] event.applied[j]).index != (#[trigger] event.rejected[k]).index,
{
    let indexes = event_indexes(event);
    assert(indexes.no_duplicates());
    let n = event.applied.len() as int;
    assert forall|j: int, k: int| 0 <= j < k < event.applied.len() implies (
    #[trigger] event.applied[j]).index != (#[trigger] event.applied[k]).index by {
        assert(indexes[j] == event.applied[j].index && indexes[k] == event.applied[k].index);
    }
    assert forall|j: int, k: int|
        0 <= j < event.applied.len() && 0 <= k < event.rejected.len() implies (
    #[trigger] event.applied[j]).index != (#[trigger] event.rejected[k]).index by {
        assert(indexes[j] == event.applied[j].index && indexes[n + k] == event.rejected[k].index);
    }
}

/// A text is in order exactly where it says something, is no longer than it may be, and holds no
/// marker where none may stand.
pub proof fn law_texts_are_bounded_and_unmarked(
    value: Seq<char>,
    maximum: usize,
    name: Seq<char>,
    forbid_markers: bool,
)
    ensures
        text_fault(value, maximum, name, forbid_markers) is None <==> {
            &&& !is_blank(value)
            &&& utf8_len(value) <= maximum
            &&& forbid_markers ==> !contains_text(value, "<continual_harness>"@)
                && !contains_text(value, "</continual_harness>"@)
        },
{
}

proof fn lemma_edits_sound(edits: Seq<EditView>)
    ensures
        edits_fault(edits) is None <==> (forall|i: int|
            0 <= i < edits.len() ==> (#[trigger] edits[i]).fault() is None),
    decreases edits.len(),
{
    if edits.len() > 0 {
        let rest = edits.drop_first();
        lemma_edits_sound(rest);
        if edits_fault(edits) is None {
            assert forall|i: int| 0 <= i < edits.len() implies (#[trigger] edits[i]).fault()
                is None by {
                if i > 0 {
                    assert(rest[i - 1] == edits[i]);
                }
            }
        }
        if forall|i: int| 0 <= i < edits.len() ==> (#[trigger] edits[i]).fault() is None {
            assert(edits[0].fault() is None);
            assert forall|i: int| 0 <= i < rest.len() implies (#[trigger] rest[i]).fault()
                is None by {
                assert(rest[i] == edits[i + 1]);
            }
        }
    }
}

/// A proposal is in order exactly where its three texts are, and it holds at least one edit, no
/// more than it may, and every one of them in order.
pub proof fn law_proposals_are_sound_edit_by_edit(proposal: ProposalView)
    ensures
        proposal.fault() is None <==> {
            &&& text_fault(
                proposal.summary,
                MAX_REFINEMENT_TEXT_BYTES,
                "proposal summary"@,
                true,
            ) is None
            &&& text_fault(
                proposal.rationale,
                MAX_REFINEMENT_TEXT_BYTES,
                "proposal rationale"@,
                true,
            ) is None
            &&& text_fault(
                proposal.expected_outcome,
                MAX_REFINEMENT_TEXT_BYTES,
                "proposal expected outcome"@,
                true,
            ) is None
            &&& 0 < proposal.edits.len() <= MAX_REFINEMENT_EDITS
            &&& forall|i: int|
                0 <= i < proposal.edits.len() ==> (#[trigger] proposal.edits[i]).fault() is None
        },
{
    lemma_edits_sound(proposal.edits);
}

} // verus!
