//! That nothing but the proposal itself can keep a proposal from being applied, and nothing but
//! a later change an event from being rolled back.

use crate::evolution::edit::{
    budget_fault, edit_effect, keyed_bytes, total_bytes, with_effect, EditView, ProposalView,
};
use crate::evolution::entry::{arguments_fault, derived_id, entry_id_fault, EntryView};
use crate::evolution::event::{
    applied_fault, built_event, event_identity, event_indexes, law_built_events_are_valid,
    rejected_fault, sha256_id, sha256_id_fault, AppliedView, EventKindView, EventView,
    RejectedView,
};
use crate::evolution::state::{
    applied_event, apply_outcome, entries_fault, head_of, inverted, inverted_all,
    law_undo_restores, lemma_entries_checked, progress, recorded_words, rollback_event,
    rollback_outcome, Progress, StateView,
};
use crate::evolution::{
    text_fault, Refusal, EVOLUTION_STATE_SCHEMA_VERSION, HARNESS_SUPPLEMENT_BEGIN,
    HARNESS_SUPPLEMENT_END, MAX_ENTRY_SOURCE_BYTES, MAX_HARNESS_ENTRIES_PER_SCOPE,
    MAX_HARNESS_EVIDENCE_REFS, MAX_HARNESS_SCOPE_CONTENT_BYTES, MAX_REFINEMENT_EDITS,
    MAX_REFINEMENT_TEXT_BYTES,
};
use crate::harness::EvidenceView;
use crate::text::{is_hex_digit, is_whitespace, lemma_head_within, occurs_at, utf8_len};
use crate::text_map::{lemma_listing_exists, lemma_sorted_keys, sorted_keys};
use vstd::prelude::*;
use vstd::utf8::{is_ascii_chars, is_ascii_chars_encode_utf8};

verus! {

/// Entries that a ledger can hold: within the budgets, each in order and under its own identifier.
pub open spec fn sound_entries(entries: Map<Seq<char>, EntryView>) -> bool {
    &&& entries.dom().finite()
    &&& budget_fault(entries) is None
    &&& forall|k: Seq<char>| #[trigger]
        entries.dom().contains(k) ==> entries[k].fault() is None && entries[k].id == k
}

proof fn lemma_arguments_refusal(keys: Seq<Seq<char>>, arguments: Map<Seq<char>, Seq<char>>)
    ensures
        arguments_fault(keys, arguments) matches Some(e) ==> e is Invalid,
    decreases keys.len(),
{
    if keys.len() > 0 {
        lemma_arguments_refusal(keys.drop_first(), arguments);
    }
}

proof fn lemma_entry_refusal(entry: EntryView)
    ensures
        entry.fault() matches Some(e) ==> e is Invalid,
{
    if let Some(skill) = entry.skill {
        lemma_arguments_refusal(sorted_keys(skill.arguments.dom()), skill.arguments);
    }
}

/// A refused edit is refused as invalid, or because its entry has no version left.
proof fn lemma_edit_refusal(
    entries: Map<Seq<char>, EntryView>,
    edit: EditView,
    source: Seq<char>,
    now_ms: u64,
)
    ensures
        edit_effect(entries, edit, source, now_ms) matches Err(e) ==> e is Invalid
            || e is RevisionOverflow,
{
    if let Ok(id) = edit.target() {
        lemma_entry_refusal(
            crate::evolution::edit::created_entry(edit, id, source, now_ms),
        );
        lemma_entry_refusal(
            crate::evolution::edit::updated_entry(edit, entries[id], source, now_ms),
        );
    }
}

/// The words of such a refusal can be recorded.
proof fn lemma_recorded_words(e: Refusal)
    requires
        e is Invalid || e is RevisionOverflow,
    ensures
        text_fault(
            recorded_words(e),
            MAX_REFINEMENT_TEXT_BYTES,
            "rejection error"@,
            false,
        ) is None,
{
    reveal_strlit("invalid harness evolution contract: ");
    reveal_strlit("evolution revision overflow");
    let words = e.words();
    assert(words.len() > 0);
    assert(words[0] == 'i' || words[0] == 'e');
    lemma_head_within(words, MAX_REFINEMENT_TEXT_BYTES as nat);
    let kept = recorded_words(e);
    assert(!is_whitespace(kept[0]));
}

proof fn lemma_keyed_agree(
    keys: Seq<Seq<char>>,
    a: Map<Seq<char>, EntryView>,
    b: Map<Seq<char>, EntryView>,
)
    requires
        forall|i: int| 0 <= i < keys.len() ==> a[#[trigger] keys[i]] == b[keys[i]],
    ensures
        keyed_bytes(keys, a) == keyed_bytes(keys, b),
    decreases keys.len(),
{
    if keys.len() > 0 {
        lemma_keyed_agree(keys.drop_last(), a, b);
        assert(keys.last() == keys[keys.len() - 1]);
    }
}

proof fn lemma_keyed_remove(keys: Seq<Seq<char>>, at: int, entries: Map<Seq<char>, EntryView>)
    requires
        0 <= at < keys.len(),
    ensures
        keyed_bytes(keys, entries) == keyed_bytes(keys.remove(at), entries)
            + entries[keys[at]].text_bytes(),
    decreases keys.len(),
{
    let rest = keys.remove(at);
    if at == keys.len() - 1 {
        assert(rest =~= keys.drop_last());
    } else {
        assert(rest.drop_last() =~= keys.drop_last().remove(at));
        assert(rest.last() == keys.last());
        lemma_keyed_remove(keys.drop_last(), at, entries);
    }
}

/// Entries without one of them hold less text by what that one holds.
proof fn lemma_fewer_bytes(entries: Map<Seq<char>, EntryView>, id: Seq<char>)
    requires
        entries.dom().finite(),
        entries.dom().contains(id),
    ensures
        total_bytes(entries) == total_bytes(entries.remove(id)) + entries[id].text_bytes(),
{
    let dom = entries.dom();
    let keys = sorted_keys(dom);
    lemma_listing_exists(dom);
    assert(keys.contains(id));
    let at = choose|i: int| 0 <= i < keys.len() && keys[i] == id;
    let rest = keys.remove(at);
    let less = entries.remove(id);
    assert forall|i: int, j: int| 0 <= i < j < rest.len() implies crate::text::text_lt(
        #[trigger] rest[i],
        #[trigger] rest[j],
    ) by {
        let a = if i < at { i } else { i + 1 };
        let b = if j < at { j } else { j + 1 };
        assert(rest[i] == keys[a] && rest[j] == keys[b]);
    }
    assert forall|i: int| 0 <= i < rest.len() implies #[trigger] rest[i] != id by {
        let a = if i < at { i } else { i + 1 };
        assert(rest[i] == keys[a]);
        if a < at {
            crate::text::lemma_text_asymmetric(keys[a], keys[at]);
        } else {
            crate::text::lemma_text_asymmetric(keys[at], keys[a]);
        }
    }
    assert forall|k: Seq<char>| rest.contains(k) <==> #[trigger] less.dom().contains(k) by {
        if rest.contains(k) {
            let i = choose|i: int| 0 <= i < rest.len() && rest[i] == k;
            let a = if i < at { i } else { i + 1 };
            assert(keys[a] == k);
            assert(keys.contains(k));
            assert(dom.contains(k));
        }
        if less.dom().contains(k) {
            assert(dom.contains(k));
            assert(keys.contains(k));
            let a = choose|a: int| 0 <= a < keys.len() && keys[a] == k;
            let i = if a < at { a } else { a - 1 };
            assert(rest[i] == k);
        }
    }
    lemma_sorted_keys(rest, less.dom());
    lemma_keyed_remove(keys, at, entries);
    assert forall|i: int| 0 <= i < rest.len() implies entries[#[trigger] rest[i]]
        == less[rest[i]] by {}
    lemma_keyed_agree(rest, entries, less);
}

/// Whether the edits recorded so far can stand in an event.
spec fn sound_records(p: Progress, n: nat) -> bool {
    &&& p.applied.len() + p.rejected.len() == n
    &&& forall|i: int|
        0 <= i < p.applied.len() ==> (#[trigger] p.applied[i]).fault() is None
            && p.applied[i].index < n
    &&& forall|i: int|
        0 <= i < p.rejected.len() ==> (#[trigger] p.rejected[i]).fault() is None
            && p.rejected[i].index < n
    &&& forall|i: int, j: int|
        0 <= i < j < p.applied.len() ==> (#[trigger] p.applied[i]).index < (
        #[trigger] p.applied[j]).index
    &&& forall|i: int, j: int|
        0 <= i < j < p.rejected.len() ==> (#[trigger] p.rejected[i]).index < (
        #[trigger] p.rejected[j]).index
    &&& forall|i: int, j: int|
        0 <= i < p.applied.len() && 0 <= j < p.rejected.len() ==> (#[trigger] p.applied[i]).index
            != (#[trigger] p.rejected[j]).index
}

/// What one committed edit leaves is sound, and so is its record.
proof fn lemma_effect_sound(
    entries: Map<Seq<char>, EntryView>,
    edit: EditView,
    source: Seq<char>,
    now_ms: u64,
    index: u32,
)
    requires
        sound_entries(entries),
    ensures
        edit_effect(entries, edit, source, now_ms) matches Ok(effect) ==> {
            let record = AppliedView {
                index,
                entry_id: effect.id,
                action: edit.action,
                before: effect.before,
                after: effect.after,
            };
            sound_entries(with_effect(entries, effect.id, effect.after)) && record.fault() is None
        },
{
    if let Ok(effect) = edit_effect(entries, edit, source, now_ms) {
        let id = effect.id;
        assert(entry_id_fault(id) is None) by {
            match edit.id {
                Some(_) => {},
                None => {
                    assert(derived_id(edit.title->0) is Ok);
                },
            }
        }
        match effect.after {
            Some(entry) => {
                assert(entry.id == id);
                assert(sound_entries(entries.insert(id, entry)));
            },
            None => {
                let less = entries.remove(id);
                lemma_fewer_bytes(entries, id);
                assert(less.dom() =~= entries.dom().remove(id));
                assert(sound_entries(less));
            },
        }
    }
}

#[verifier::spinoff_prover]
#[verifier::rlimit(40)]
proof fn lemma_progress_sound(
    entries: Map<Seq<char>, EntryView>,
    edits: Seq<EditView>,
    source: Seq<char>,
    now_ms: u64,
    n: nat,
)
    requires
        sound_entries(entries),
        n <= edits.len() <= MAX_REFINEMENT_EDITS,
    ensures
        sound_entries(progress(entries, edits, source, now_ms, n).entries),
        sound_records(progress(entries, edits, source, now_ms, n), n),
    decreases n,
{
    if n > 0 {
        let m = (n - 1) as nat;
        lemma_progress_sound(entries, edits, source, now_ms, m);
        let p = progress(entries, edits, source, now_ms, m);
        let q = progress(entries, edits, source, now_ms, n);
        let edit = edits[n - 1];
        lemma_effect_sound(p.entries, edit, source, now_ms, m as u32);
        lemma_edit_refusal(p.entries, edit, source, now_ms);
        match edit_effect(p.entries, edit, source, now_ms) {
            Ok(effect) => {
                let last = q.applied.last();
                assert(q.applied == p.applied.push(last));
                assert(last.fault() is None);
                assert(last.index == m);
            },
            Err(e) => {
                lemma_recorded_words(e);
                let last = q.rejected.last();
                assert(q.rejected == p.rejected.push(last));
                assert(last.fault() is None);
                assert(last.index == m);
            },
        }
    }
}

proof fn lemma_no_applied_fault(applied: Seq<AppliedView>)
    requires
        forall|i: int| 0 <= i < applied.len() ==> (#[trigger] applied[i]).fault() is None,
    ensures
        applied_fault(applied) is None,
    decreases applied.len(),
{
    if applied.len() > 0 {
        lemma_no_applied_fault(applied.drop_first());
    }
}

proof fn lemma_applied_fault_at(applied: Seq<AppliedView>, i: int)
    requires
        applied_fault(applied) is None,
        0 <= i < applied.len(),
    ensures
        applied[i].fault() is None,
    decreases applied.len(),
{
    if i > 0 {
        lemma_applied_fault_at(applied.drop_first(), i - 1);
    }
}

proof fn lemma_no_rejected_fault(rejected: Seq<RejectedView>)
    requires
        forall|i: int| 0 <= i < rejected.len() ==> (#[trigger] rejected[i]).fault() is None,
    ensures
        rejected_fault(rejected) is None,
    decreases rejected.len(),
{
    if rejected.len() > 0 {
        lemma_no_rejected_fault(rejected.drop_first());
    }
}

proof fn lemma_no_entries_fault(keys: Seq<Seq<char>>, entries: Map<Seq<char>, EntryView>)
    requires
        forall|i: int|
            0 <= i < keys.len() ==> entries[#[trigger] keys[i]].fault() is None
                && entries[keys[i]].id == keys[i],
    ensures
        entries_fault(keys, entries) is None,
    decreases keys.len(),
{
    if keys.len() > 0 {
        lemma_no_entries_fault(keys.drop_first(), entries);
    }
}

/// A ledger is valid exactly where its schema and scope are in order and its entries are sound.
proof fn lemma_state_sound(state: StateView)
    requires
        state.entries.dom().finite(),
    ensures
        state.fault() is None <==> state.schema_version
            == crate::evolution::EVOLUTION_STATE_SCHEMA_VERSION && state.scope.fault() is None
            && sound_entries(state.entries),
{
    let keys = sorted_keys(state.entries.dom());
    lemma_listing_exists(state.entries.dom());
    if state.fault() is None {
        assert forall|k: Seq<char>| #[trigger] state.entries.dom().contains(k) implies
            state.entries[k].fault() is None && state.entries[k].id == k by {
            assert(keys.contains(k));
            let i = choose|i: int| 0 <= i < keys.len() && keys[i] == k;
            lemma_entries_checked(keys, state.entries, i);
        }
    }
    if sound_entries(state.entries) {
        assert forall|i: int| 0 <= i < keys.len() implies state.entries[
            #[trigger] keys[i]
        ].fault() is None && state.entries[keys[i]].id == keys[i] by {
            assert(keys.contains(keys[i]));
            assert(state.entries.dom().contains(keys[i]));
        }
        lemma_no_entries_fault(keys, state.entries);
    }
}

/// A valid proposal is always applied: whatever becomes of its edits, each is committed or
/// recorded as refused, and the ledger advances. Only a ledger at its last revision, or more
/// evidence than an event cites, stands against it.
#[verifier::spinoff_prover]
#[verifier::rlimit(60)]
pub proof fn law_valid_proposals_are_applied(
    state: StateView,
    proposal: ProposalView,
    source: Seq<char>,
    evidence: Seq<EvidenceView>,
    now_ms: u64,
)
    requires
        state.fault() is None,
        state.entries.dom().finite(),
        state.revision < u64::MAX,
        proposal.fault() is None,
        text_fault(source, MAX_ENTRY_SOURCE_BYTES, "refinement source"@, true) is None,
        evidence.len() <= MAX_HARNESS_EVIDENCE_REFS,
    ensures
        apply_outcome(state, proposal, source, evidence, now_ms) is Ok,
{
    let n = proposal.edits.len();
    let p = progress(state.entries, proposal.edits, source, now_ms, n);
    lemma_state_sound(state);
    lemma_progress_sound(state.entries, proposal.edits, source, now_ms, n);
    let event = applied_event(state, proposal, p, evidence, now_ms);
    lemma_no_applied_fault(p.applied);
    lemma_no_rejected_fault(p.rejected);
    let indexes = event_indexes(event);
    assert(indexes.no_duplicates()) by {
        assert forall|i: int, j: int| 0 <= i < j < indexes.len() implies indexes[i]
            != indexes[j] by {
            let a = p.applied.len();
            if j < a {
                assert(p.applied[i].index < p.applied[j].index);
            } else if i >= a {
                assert(p.rejected[i - a].index < p.rejected[j - a].index);
            } else {
                assert(p.applied[i].index != p.rejected[j - a].index);
            }
        }
    }
    let built = built_event(event);
    assert(event_indexes(
        EventView { event_id: event_identity(event), ..event },
    ) == indexes);
    assert(built is Ok);
    let next = StateView {
        revision: event.resulting_revision,
        entries: p.entries,
        ..state
    };
    lemma_state_sound(next);
}

/// Whether a text is short, plain and holds no marker character.
pub open spec fn plain(s: Seq<char>) -> bool {
    &&& 0 < s.len() <= 64
    &&& s[0] != ' '
    &&& forall|i: int| 0 <= i < s.len() ==> ' ' <= #[trigger] s[i] <= 'z' && s[i] != '<'
}

/// Such a text may stand wherever one of its size may.
pub proof fn lemma_plain_text(s: Seq<char>, maximum: usize, name: Seq<char>)
    requires
        plain(s),
        maximum >= 64,
    ensures
        text_fault(s, maximum, name, true) is None,
        utf8_len(s) == s.len(),
{
    assert(is_ascii_chars(s));
    is_ascii_chars_encode_utf8(s);
    assert(!is_whitespace(s[0]));
    reveal_strlit("<continual_harness>");
    reveal_strlit("</continual_harness>");
    assert forall|at: int| !occurs_at(s, HARNESS_SUPPLEMENT_BEGIN@, at) by {
        if occurs_at(s, HARNESS_SUPPLEMENT_BEGIN@, at) {
            let part = s.subrange(at, at + HARNESS_SUPPLEMENT_BEGIN@.len() as int);
            assert(part[0] == s[at]);
        }
    }
    assert forall|at: int| !occurs_at(s, HARNESS_SUPPLEMENT_END@, at) by {
        if occurs_at(s, HARNESS_SUPPLEMENT_END@, at) {
            let part = s.subrange(at, at + HARNESS_SUPPLEMENT_END@.len() as int);
            assert(part[0] == s[at]);
        }
    }
}

proof fn lemma_hex_is_plain(c: char)
    requires
        is_hex_digit(c),
    ensures
        ' ' <= c <= 'z',
        c != '<',
{
}

/// The head of the identity that a rollback names itself by.
proof fn lemma_rollback_summary(id: Seq<char>)
    requires
        sha256_id(id),
    ensures
        plain("rollback of refinement "@ + head_of(id, 15)),
        sha256_id_fault(id, "rolled-back event ID"@) is None,
{
    reveal_strlit("rollback of refinement ");
    reveal_strlit("sha256:");
    let head = head_of(id, 15);
    let s = "rollback of refinement "@ + head;
    assert(id.skip(7).len() == 64);
    assert forall|i: int| 0 <= i < id.len() implies ' ' <= #[trigger] id[i] <= 'z' && id[i]
        != '<' by {
        if i < 7 {
            let prefix = "sha256:"@;
            assert(id.subrange(0, 7)[i] == prefix[i]);
            assert(prefix[0] == 's' && prefix[1] == 'h' && prefix[2] == 'a' && prefix[3] == '2'
                && prefix[4] == '5' && prefix[5] == '6' && prefix[6] == ':');
            assert(i == 0 || i == 1 || i == 2 || i == 3 || i == 4 || i == 5 || i == 6);
        } else {
            let c = id.skip(7)[i - 7];
            assert(is_hex_digit(c));
            assert(c == id[i]);
            lemma_hex_is_plain(c);
        }
    }
    assert forall|i: int| 0 <= i < s.len() implies ' ' <= #[trigger] s[i] <= 'z' && s[i]
        != '<' by {
        if i >= 23 {
            assert(s[i] == id[i - 23]);
        }
    }
}

/// What the undoing of edits records stands in an event as the edits did.
proof fn lemma_inverted_fits(event: EventView)
    requires
        event.edits_fault() is None,
        event.applied.len() > 0,
    ensures
        applied_fault(inverted_all(event.applied)) is None,
        Seq::new(
            event.applied.len(),
            |i: int| inverted_all(event.applied)[i].index,
        ).no_duplicates(),
{
    let all = event.applied;
    let back = inverted_all(all);
    let n = all.len() as int;
    assert forall|i: int| 0 <= i < back.len() implies (#[trigger] back[i]).fault() is None by {
        lemma_applied_fault_at(all, n - 1 - i);
        assert(back[i] == inverted(all[n - 1 - i]));
    }
    lemma_no_applied_fault(back);
    let was = event_indexes(event);
    let now = Seq::new(all.len(), |i: int| back[i].index);
    assert forall|i: int, j: int| 0 <= i < j < now.len() implies now[i] != now[j] by {
        assert(now[i] == was[n - 1 - i]);
        assert(now[j] == was[n - 1 - j]);
    }
}

/// The event of a rollback is in order.
#[verifier::spinoff_prover]
#[verifier::rlimit(60)]
pub proof fn lemma_rollback_event(
    state: StateView,
    event: EventView,
    reason: Seq<char>,
    now_ms: u64,
    id: Seq<char>,
)
    requires
        state.scope.fault() is None,
        state.revision < u64::MAX,
        event.edits_fault() is None,
        event.applied.len() > 0,
        sha256_id(event.event_id),
        text_fault(reason, MAX_REFINEMENT_TEXT_BYTES, "rollback reason"@, true) is None,
    ensures
        (EventView { event_id: id, ..rollback_event(state, event, reason, now_ms) }).content_fault()
            is None,
{
    let made = EventView { event_id: id, ..rollback_event(state, event, reason, now_ms) };
    lemma_rollback_summary(event.event_id);
    lemma_plain_text(made.summary, MAX_REFINEMENT_TEXT_BYTES, "event summary"@);
    reveal_strlit("restore the exact pre-refinement harness entries");
    lemma_plain_text(
        made.expected_outcome,
        MAX_REFINEMENT_TEXT_BYTES,
        "event expected outcome"@,
    );
    assert(made.head_fault() is None);
    lemma_inverted_fits(event);
    let back = inverted_all(event.applied);
    assert(event_indexes(made) =~= Seq::new(event.applied.len(), |i: int| back[i].index));
    assert(rejected_fault(made.rejected) is None);
    assert(made.edits_fault() is None);
}

/// Rolling back the event of a proposal, with nothing in between, succeeds where the event
/// committed anything and there is a revision left. It gives back the ledger from before the
/// proposal, two revisions on, and its event lists the committed edits in reverse, each with its
/// two snapshots exchanged.
#[verifier::spinoff_prover]
#[verifier::rlimit(60)]
pub proof fn law_rollback_restores(
    state: StateView,
    proposal: ProposalView,
    source: Seq<char>,
    evidence: Seq<EvidenceView>,
    now_ms: u64,
    next: StateView,
    event: EventView,
    reason: Seq<char>,
    later_ms: u64,
)
    requires
        state.fault() is None,
        apply_outcome(state, proposal, source, evidence, now_ms) == Ok::<_, Refusal>(
            (next, event),
        ),
        event.applied.len() > 0,
        sha256_id(event.event_id),
        next.revision < u64::MAX,
        text_fault(reason, MAX_REFINEMENT_TEXT_BYTES, "rollback reason"@, true) is None,
    ensures
        rollback_outcome(next, event, reason, later_ms) matches Ok((restored, undone)) && {
            &&& restored == (StateView { revision: (state.revision + 2) as u64, ..state })
            &&& undone.kind == (EventKindView::Rollback { of_event_id: event.event_id })
            &&& undone.applied == inverted_all(event.applied)
            &&& undone.rejected.len() == 0
            &&& undone.based_on_revision == next.revision
        },
{
    law_undo_restores(state.entries, proposal.edits, source, now_ms, proposal.edits.len());
    let p = progress(state.entries, proposal.edits, source, now_ms, proposal.edits.len());
    law_built_events_are_valid(applied_event(state, proposal, p, evidence, now_ms));
    let bare = rollback_event(next, event, reason, later_ms);
    lemma_rollback_event(next, event, reason, later_ms, event_identity(bare));
    let restored = StateView {
        revision: bare.resulting_revision,
        entries: state.entries,
        ..next
    };
    assert(restored == (StateView { revision: (state.revision + 2) as u64, ..state }));
    assert(restored.fault() is None);
}

/// A ledger of finitely many entries is in order exactly where its schema is the one that is known,
/// its scope is in order, its entries are within the budgets, and each of them is in order and
/// stands under its own identifier.
pub proof fn law_ledgers_are_sound_entry_by_entry(state: StateView)
    requires
        state.entries.dom().finite(),
    ensures
        state.fault() is None <==> {
            &&& state.schema_version == EVOLUTION_STATE_SCHEMA_VERSION
            &&& state.scope.fault() is None
            &&& state.entries.dom().len() <= MAX_HARNESS_ENTRIES_PER_SCOPE
            &&& total_bytes(state.entries) <= MAX_HARNESS_SCOPE_CONTENT_BYTES
            &&& forall|id: Seq<char>| #[trigger]
                state.entries.dom().contains(id) ==> state.entries[id].fault() is None
                    && state.entries[id].id == id
        },
{
    lemma_state_sound(state);
}

/// The text of a ledger is that of its entries together: one more entry adds its own, no entry has
/// none, and an entry counts its title and its content, and its skill where it has one.
pub proof fn law_ledger_text_is_counted_entry_by_entry(
    entries: Map<Seq<char>, EntryView>,
    id: Seq<char>,
    entry: EntryView,
)
    requires
        entries.dom().finite(),
        !entries.dom().contains(id),
    ensures
        total_bytes(Map::empty()) == 0,
        total_bytes(entries.insert(id, entry)) == total_bytes(entries) + entry.text_bytes(),
        entry.skill is None ==> entry.text_bytes() == utf8_len(entry.title) + utf8_len(
            entry.content,
        ),
        entry.skill is Some ==> entry.text_bytes() >= utf8_len(entry.title) + utf8_len(
            entry.content,
        ) + utf8_len(entry.skill->Some_0.invocation),
{
    let more = entries.insert(id, entry);
    lemma_fewer_bytes(more, id);
    assert(more.remove(id) =~= entries);
    let none = Map::<Seq<char>, EntryView>::empty();
    lemma_listing_exists(none.dom());
    let keys = sorted_keys(none.dom());
    if keys.len() > 0 {
        assert(keys.contains(keys[0]));
        assert(none.dom().contains(keys[0]));
    }
}

} // verus!
