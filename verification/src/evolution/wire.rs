//! Events and ledgers as bytes: how they are written, and how they are read back.

use crate::evolution::decode::{
    action_named, decoded_arguments, decoded_entry, decoded_optional_entry, decoded_optional_skill,
    decoded_skill, kind_named, read_action, read_entry,
};
use crate::evolution::edit::{entry_views, optional_entry};
use crate::evolution::entry::{lemma_arguments_checked, EntryView, HarnessEntry, SkillView};
use crate::evolution::event::{
    applied_documents, applied_fault, applied_json, applied_list, applied_views, arguments_json,
    entry_document, entry_json, event_identity, evidence_documents, evidence_json, evidence_list,
    evidence_views,
    kind_document, kind_json, rejected_documents, rejected_json, rejected_list, rejected_views,
    skill_json, AppliedEdit, AppliedView, EventKindView, EventView, RefinementEvent,
    RefinementEventKind, RejectedEdit, RejectedView,
};
use crate::evolution::identity::identity_reads_back;
use crate::evolution::state::{lemma_entries_checked, EvolutionState, StateView};
use crate::evolution::{
    law_scope_text_round_trip, refusal, EvolutionError, HarnessScope, Refusal, ScopeView,
    MAX_EVOLUTION_STATE_BYTES, MAX_REFINEMENT_EVENT_BYTES,
};
use crate::harness::{EvidenceView, HarnessEvidenceKind, HarnessEvidenceRef};
use crate::json::{
    fields_sound, fields_view, has_key, json_parsed, json_written, lemma_depth_more,
    lemma_fields_view, lemma_list_view, lemma_lookup_push, lemma_sound_empty, lemma_sound_push,
    list_view, lookup, name_views, number_json, object_json, push_field, raw_key, shape, shaped,
    sound, text_json, Json, JsonView,
};
use crate::text::{is_alphanumeric, option_view, same_text, utf8_text};
use crate::text_map::{lemma_listing_exists, sorted_keys, TextMap};
use vstd::prelude::*;
use vstd::utf8::{
    decode_utf8, encode_utf8, encode_utf8_decode_utf8, encode_utf8_valid_utf8, valid_utf8,
};

verus! {

/// The fields of a committed edit.
pub open spec fn applied_names() -> Seq<Seq<char>> {
    seq!["index"@, "entry_id"@, "action"@, "before"@, "after"@]
}

/// The committed edit that a document describes, as an object or as the list of its fields.
pub open spec fn decoded_applied(j: JsonView) -> Option<AppliedView> {
    match shaped(j, applied_names(), 3) {
        Some(o) => applied_in(o),
        None => None,
    }
}

/// The committed edit that the fields of an object describe. One that is not in order is not read.
pub open spec fn applied_in(j: JsonView) -> Option<AppliedView> {
    match (
        j.small_at("index"@),
        j.text_at("entry_id"@),
        j.variant_at("action"@),
        decoded_optional_entry(j.get("before"@)),
        decoded_optional_entry(j.get("after"@)),
    ) {
        (Some(index), Some(entry_id), Some(action), Some(before), Some(after)) => match action_named(
            action,
        ) {
            Some(action) => {
                let edit = AppliedView { index, entry_id, action, before, after };
                if edit.fault() is None {
                    Some(edit)
                } else {
                    None
                }
            },
            None => None,
        },
        _ => None,
    }
}

/// The fields of a refused edit.
pub open spec fn rejected_names() -> Seq<Seq<char>> {
    seq!["index"@, "entry_id"@, "error"@]
}

/// The refused edit that a document describes, as an object or as the list of its fields.
pub open spec fn decoded_rejected(j: JsonView) -> Option<RejectedView> {
    match shaped(j, rejected_names(), 3) {
        Some(o) => rejected_in(o),
        None => None,
    }
}

/// The refused edit that the fields of an object describe.
pub open spec fn rejected_in(j: JsonView) -> Option<RejectedView> {
    match (
        j.small_at("index"@),
        j.optional_text_at("entry_id"@),
        j.text_at("error"@),
    ) {
        (Some(index), Some(entry_id), Some(error)) => Some(RejectedView { index, entry_id, error }),
        _ => None,
    }
}

/// The evidence reference that a document describes.
pub open spec fn decoded_evidence(j: JsonView) -> Option<EvidenceView> {
    match (j.text_at("kind"@), j.text_at("reference"@)) {
        (Some(kind), Some(reference)) => if kind == "refinement"@ {
            Some(EvidenceView { kind: HarnessEvidenceKind::Refinement, reference })
        } else {
            None
        },
        _ => None,
    }
}

/// What brought an event about, by its document: an object with its type, or a list that begins
/// with it.
pub open spec fn decoded_kind(j: JsonView) -> Option<EventKindView> {
    match j {
        JsonView::List(items) => if items.len() == 1 && items[0].text() == Some("applied"@) {
            Some(EventKindView::Applied)
        } else if items.len() == 2 && items[0].text() == Some("rollback"@) {
            match items[1].text() {
                Some(of_event_id) => Some(EventKindView::Rollback { of_event_id }),
                None => None,
            }
        } else {
            None
        },
        _ => kind_in(j),
    }
}

/// What brought an event about, by the fields of an object.
pub open spec fn kind_in(j: JsonView) -> Option<EventKindView> {
    match j.text_at("type"@) {
        Some(name) => if name == "applied"@ {
            Some(EventKindView::Applied)
        } else if name == "rollback"@ {
            match j.text_at("of_event_id"@) {
                Some(of_event_id) => Some(EventKindView::Rollback { of_event_id }),
                None => None,
            }
        } else {
            None
        },
        None => None,
    }
}

/// The committed edits that a list describes.
pub open spec fn decoded_applied_list(items: Seq<JsonView>) -> Option<Seq<AppliedView>>
    decreases items.len(),
{
    if items.len() == 0 {
        Some(Seq::empty())
    } else {
        match (decoded_applied_list(items.drop_last()), decoded_applied(items.last())) {
            (Some(before), Some(last)) => Some(before.push(last)),
            _ => None,
        }
    }
}

/// The refused edits that a list describes.
pub open spec fn decoded_rejected_list(items: Seq<JsonView>) -> Option<Seq<RejectedView>>
    decreases items.len(),
{
    if items.len() == 0 {
        Some(Seq::empty())
    } else {
        match (decoded_rejected_list(items.drop_last()), decoded_rejected(items.last())) {
            (Some(before), Some(last)) => Some(before.push(last)),
            _ => None,
        }
    }
}

/// The references that a list describes.
pub open spec fn decoded_evidence_list(items: Seq<JsonView>) -> Option<Seq<EvidenceView>>
    decreases items.len(),
{
    if items.len() == 0 {
        Some(Seq::empty())
    } else {
        match (decoded_evidence_list(items.drop_last()), decoded_evidence(items.last())) {
            (Some(before), Some(last)) => Some(before.push(last)),
            _ => None,
        }
    }
}

/// The items of a list that may be missing.
pub open spec fn optional_items(j: Option<JsonView>) -> Option<Seq<JsonView>> {
    match j {
        None => Some(Seq::empty()),
        Some(value) => value.list(),
    }
}

/// The scope that a text names, when it is a valid one.
pub open spec fn decoded_scope(text: Option<Seq<char>>) -> Option<ScopeView> {
    match text {
        Some(t) => match ScopeView::named(t) {
            Some(scope) => if scope.fault() is None {
                Some(scope)
            } else {
                None
            },
            None => None,
        },
        None => None,
    }
}

/// The lists of an event, by its document.
pub open spec fn decoded_lists(j: JsonView) -> Option<
    (Seq<AppliedView>, Seq<RejectedView>, Seq<EvidenceView>),
> {
    match (
        j.at("applied"@).list(),
        optional_items(j.get("rejected"@)),
        optional_items(j.get("evidence"@)),
    ) {
        (Some(applied), Some(rejected), Some(evidence)) => match (
            decoded_applied_list(applied),
            decoded_rejected_list(rejected),
            decoded_evidence_list(evidence),
        ) {
            (Some(a), Some(r), Some(e)) => Some((a, r, e)),
            _ => None,
        },
        _ => None,
    }
}

/// The fields of an event.
pub open spec fn event_names() -> Seq<Seq<char>> {
    seq![
        "schema_version"@,
        "event_id"@,
        "scope"@,
        "kind"@,
        "based_on_revision"@,
        "resulting_revision"@,
        "summary"@,
        "rationale"@,
        "expected_outcome"@,
        "applied"@,
        "rejected"@,
        "evidence"@,
        "created_at_ms"@,
    ]
}

/// The event that a document describes, as an object or as the list of its fields, its
/// contract left aside.
pub open spec fn decoded_event(j: JsonView) -> Option<EventView> {
    match shaped(j, event_names(), 13) {
        Some(o) => event_in(o),
        None => None,
    }
}

/// The event that the fields of an object describe, its contract left aside.
pub open spec fn event_in(j: JsonView) -> Option<EventView> {
    match (
        j.small_at("schema_version"@),
        j.text_at("event_id"@),
        decoded_scope(j.text_at("scope"@)),
        decoded_kind(j.at("kind"@)),
        j.unsigned_at("based_on_revision"@),
        j.unsigned_at("resulting_revision"@),
    ) {
        (
            Some(schema_version),
            Some(event_id),
            Some(scope),
            Some(kind),
            Some(based_on_revision),
            Some(resulting_revision),
        ) => match (
            j.text_at("summary"@),
            j.text_at("rationale"@),
            j.text_at("expected_outcome"@),
            decoded_lists(j),
            j.unsigned_at("created_at_ms"@),
        ) {
            (
                Some(summary),
                Some(rationale),
                Some(expected_outcome),
                Some((applied, rejected, evidence)),
                Some(created_at_ms),
            ) => Some(
                EventView {
                    schema_version,
                    event_id,
                    scope,
                    kind,
                    based_on_revision,
                    resulting_revision,
                    summary,
                    rationale,
                    expected_outcome,
                    applied,
                    rejected,
                    evidence,
                    created_at_ms,
                },
            ),
            _ => None,
        },
        _ => None,
    }
}

/// The fields of an event in front of its lists.
pub open spec fn event_head(e: EventView) -> Seq<(Seq<char>, JsonView)> {
    Seq::<(Seq<char>, JsonView)>::empty().push(
        ("schema_version"@, JsonView::Unsigned(e.schema_version as u64)),
    ).push(("event_id"@, JsonView::Text(e.event_id))).push(
        ("scope"@, JsonView::Text(e.scope.text())),
    ).push(("kind"@, kind_json(e.kind))).push(
        ("based_on_revision"@, JsonView::Unsigned(e.based_on_revision)),
    ).push(("resulting_revision"@, JsonView::Unsigned(e.resulting_revision))).push(
        ("summary"@, JsonView::Text(e.summary)),
    ).push(("rationale"@, JsonView::Text(e.rationale))).push(
        ("expected_outcome"@, JsonView::Text(e.expected_outcome)),
    ).push(("applied"@, JsonView::List(applied_list(e.applied))))
}

/// The fields of an event with the lists that are not empty.
pub open spec fn event_body(e: EventView) -> Seq<(Seq<char>, JsonView)> {
    let head = event_head(e);
    let middle = if e.rejected.len() > 0 {
        head.push(("rejected"@, JsonView::List(rejected_list(e.rejected))))
    } else {
        head
    };
    if e.evidence.len() > 0 {
        middle.push(("evidence"@, JsonView::List(evidence_list(e.evidence))))
    } else {
        middle
    }
}

/// An event as a document.
pub open spec fn event_json(e: EventView) -> JsonView {
    JsonView::Object(event_body(e).push(("created_at_ms"@, JsonView::Unsigned(e.created_at_ms))))
}

/// The fields of the entries of a ledger, by key.
pub open spec fn entries_json(keys: Seq<Seq<char>>, entries: Map<Seq<char>, EntryView>) -> Seq<
    (Seq<char>, JsonView),
>
    decreases keys.len(),
{
    if keys.len() == 0 {
        Seq::empty()
    } else {
        entries_json(keys.drop_last(), entries).push(
            (keys.last(), entry_json(entries[keys.last()])),
        )
    }
}

/// A ledger as a document.
pub open spec fn state_json(s: StateView) -> JsonView {
    JsonView::Object(
        Seq::<(Seq<char>, JsonView)>::empty().push(
            ("schema_version"@, JsonView::Unsigned(s.schema_version as u64)),
        ).push(("scope"@, JsonView::Text(s.scope.text()))).push(
            ("revision"@, JsonView::Unsigned(s.revision)),
        ).push(
            ("entries"@, JsonView::Object(entries_json(sorted_keys(s.entries.dom()), s.entries))),
        ),
    )
}

/// The entries that the fields of an object describe.
pub open spec fn decoded_entries(fields: Seq<(Seq<char>, JsonView)>) -> Option<
    Map<Seq<char>, EntryView>,
>
    decreases fields.len(),
{
    if fields.len() == 0 {
        Some(Map::empty())
    } else {
        match (decoded_entries(fields.drop_last()), decoded_entry(fields.last().1)) {
            (Some(m), Some(entry)) => Some(m.insert(fields.last().0, entry)),
            _ => None,
        }
    }
}

/// The fields of a document, when it is an object.
pub open spec fn object_fields(j: JsonView) -> Option<Seq<(Seq<char>, JsonView)>> {
    match j {
        JsonView::Object(fields) => Some(fields),
        _ => None,
    }
}

/// The fields of a ledger.
pub open spec fn state_names() -> Seq<Seq<char>> {
    seq!["schema_version"@, "scope"@, "revision"@, "entries"@]
}

/// The ledger that a document describes, as an object or as the list of its fields, its
/// contract left aside.
pub open spec fn decoded_state(j: JsonView) -> Option<StateView> {
    match shaped(j, state_names(), 4) {
        Some(o) => state_in(o),
        None => None,
    }
}

/// The ledger that the fields of an object describe, its contract left aside.
pub open spec fn state_in(j: JsonView) -> Option<StateView> {
    match (
        j.small_at("schema_version"@),
        decoded_scope(j.text_at("scope"@)),
        j.unsigned_at("revision"@),
        object_fields(j.at("entries"@)),
    ) {
        (Some(schema_version), Some(scope), Some(revision), Some(fields)) => match decoded_entries(
            fields,
        ) {
            Some(entries) => Some(StateView { schema_version, scope, revision, entries }),
            None => None,
        },
        _ => None,
    }
}

/// Whether the arguments of a skill are finitely many, and none has the key that `serde_json` keeps
/// for itself. Those of every valid contract are.
pub open spec fn skill_tame(skill: Option<SkillView>) -> bool {
    skill matches Some(s) ==> s.arguments.dom().finite() && !s.arguments.dom().contains(raw_key())
}

/// Whether the skills in the snapshots of an edit are tame.
pub open spec fn applied_tame(edit: AppliedView) -> bool {
    &&& edit.before matches Some(entry) ==> skill_tame(entry.skill)
    &&& edit.after matches Some(entry) ==> skill_tame(entry.skill)
}

pub proof fn lemma_arguments(keys: Seq<Seq<char>>, arguments: Map<Seq<char>, Seq<char>>)
    requires
        forall|i: int, j: int| 0 <= i < j < keys.len() ==> keys[i] != keys[j],
        !keys.contains(raw_key()),
    ensures
        decoded_arguments(arguments_json(keys, arguments)) is Some,
        decoded_arguments(arguments_json(keys, arguments))->Some_0 == Map::new(
            |k: Seq<char>| keys.contains(k),
            |k: Seq<char>| arguments[k],
        ),
        fields_sound(arguments_json(keys, arguments), 0),
        forall|k: Seq<char>|
            #[trigger] has_key(arguments_json(keys, arguments), k) <==> keys.contains(k),
    decreases keys.len(),
{
    if keys.len() == 0 {
        lemma_sound_empty(0);
        assert(decoded_arguments(arguments_json(keys, arguments))->Some_0 =~= Map::new(
            |k: Seq<char>| keys.contains(k),
            |k: Seq<char>| arguments[k],
        ));
    } else {
        let shorter = keys.drop_last();
        let last = keys.last();
        let before = arguments_json(shorter, arguments);
        lemma_contains_last(keys, raw_key());
        lemma_arguments(shorter, arguments);
        assert(!shorter.contains(last)) by {
            if shorter.contains(last) {
                let i = choose|i: int| 0 <= i < shorter.len() && shorter[i] == last;
                assert(keys[i] == keys[keys.len() - 1]);
            }
        }
        lemma_sound_push(before, last, JsonView::Text(arguments[last]), 0);
        let all = arguments_json(keys, arguments);
        assert(all.drop_last() =~= before);
        assert forall|k: Seq<char>| keys.contains(k) == (shorter.contains(k) || k == last) by {
            lemma_contains_last(keys, k);
        }
        assert(decoded_arguments(all)->Some_0 =~= Map::new(
            |k: Seq<char>| keys.contains(k),
            |k: Seq<char>| arguments[k],
        ));
    }
}

proof fn lemma_contains_last(keys: Seq<Seq<char>>, k: Seq<char>)
    requires
        keys.len() > 0,
    ensures
        keys.contains(k) == (keys.drop_last().contains(k) || k == keys.last()),
{
    let shorter = keys.drop_last();
    if shorter.contains(k) {
        let i = choose|i: int| 0 <= i < shorter.len() && shorter[i] == k;
        assert(keys[i] == k);
    }
    if k == keys.last() {
        assert(keys[keys.len() - 1] == k);
    }
    if keys.contains(k) {
        let i = choose|i: int| 0 <= i < keys.len() && keys[i] == k;
        if i < shorter.len() {
            assert(shorter[i] == k);
        }
    }
}

pub proof fn lemma_listed_apart(keys: Seq<Seq<char>>)
    requires
        crate::text_map::keys_sorted(keys),
    ensures
        forall|i: int, j: int| 0 <= i < j < keys.len() ==> keys[i] != keys[j],
{
    assert forall|i: int, j: int| 0 <= i < j < keys.len() implies keys[i] != keys[j] by {
        crate::text::lemma_text_order(keys[i], keys[j], keys[i]);
    }
}

/// A skill contract is read back from its document.
pub proof fn lemma_skill(skill: SkillView)
    requires
        skill_tame(Some(skill)),
    ensures
        decoded_skill(skill_json(skill)) == Some(skill),
        sound(skill_json(skill), 2),
        skill_json(skill).get("invocation"@) == Some(JsonView::Text(skill.invocation)),
        ({
            let keys = sorted_keys(skill.arguments.dom());
            skill_json(skill).get("arguments"@) == if keys.len() == 0 {
                None
            } else {
                Some(JsonView::Object(arguments_json(keys, skill.arguments)))
            }
        }),
{
    broadcast use lemma_lookup_push;

    reveal_strlit("invocation");
    reveal_strlit("arguments");
    let keys = sorted_keys(skill.arguments.dom());
    lemma_listing_exists(skill.arguments.dom());
    lemma_listed_apart(keys);
    lemma_arguments(keys, skill.arguments);
    let fields = arguments_json(keys, skill.arguments);
    assert("invocation"@.len() == 10 && "arguments"@.len() == 9);
    let empty = Seq::<(Seq<char>, JsonView)>::empty();
    let head = empty.push(("invocation"@, JsonView::Text(skill.invocation)));
    lemma_sound_empty(1);
    lemma_sound_push(empty, "invocation"@, JsonView::Text(skill.invocation), 1);
    assert(sound(JsonView::Object(fields), 1));
    lemma_sound_push(head, "arguments"@, JsonView::Object(fields), 1);
    assert forall|k: Seq<char>| keys.contains(k) == skill.arguments.dom().contains(k) by {}
    if keys.len() == 0 {
        assert(skill.arguments =~= Map::empty()) by {
            assert forall|k: Seq<char>| !skill.arguments.dom().contains(k) by {
                if skill.arguments.dom().contains(k) {
                    assert(keys.contains(k));
                }
            }
        }
        assert(lookup(head, "invocation"@) == Some(JsonView::Text(skill.invocation)));
        assert(lookup(head, "arguments"@) is None);
    } else {
        let all = head.push(("arguments"@, JsonView::Object(fields)));
        assert(lookup(all, "invocation"@) == Some(JsonView::Text(skill.invocation)));
        assert(lookup(all, "arguments"@) == Some(JsonView::Object(fields)));
        assert(decoded_arguments(fields)->Some_0 =~= skill.arguments);
    }
}

/// An entry is read back from its document.
#[verifier::spinoff_prover]
#[verifier::rlimit(60)]
pub proof fn lemma_entry(entry: EntryView)
    requires
        skill_tame(entry.skill),
    ensures
        decoded_entry(entry_json(entry)) == Some(entry),
        sound(entry_json(entry), 3),
        kind_named(entry.kind.name()) == Some(entry.kind),
        entry_json(entry).get("id"@) == Some(JsonView::Text(entry.id)),
        entry_json(entry).get("kind"@) == Some(JsonView::Text(entry.kind.name())),
        entry_json(entry).get("title"@) == Some(JsonView::Text(entry.title)),
        entry_json(entry).get("content"@) == Some(JsonView::Text(entry.content)),
        entry_json(entry).get("skill"@) == match entry.skill {
            Some(skill) => Some(skill_json(skill)),
            None => None,
        },
        entry_json(entry).get("source"@) == Some(JsonView::Text(entry.source)),
        entry_json(entry).get("version"@) == Some(JsonView::Unsigned(entry.version)),
        entry_json(entry).get("created_at_ms"@) == Some(JsonView::Unsigned(entry.created_at_ms)),
        entry_json(entry).get("updated_at_ms"@) == Some(JsonView::Unsigned(entry.updated_at_ms)),
{
    broadcast use lemma_lookup_push;

    reveal_strlit("id");
    reveal_strlit("kind");
    reveal_strlit("title");
    reveal_strlit("content");
    reveal_strlit("skill");
    reveal_strlit("source");
    reveal_strlit("version");
    reveal_strlit("created_at_ms");
    reveal_strlit("updated_at_ms");
    reveal_strlit("prompt");
    reveal_strlit("memory");
    reveal_strlit("subagent");
    assert("id"@.len() == 2 && "kind"@.len() == 4 && "title"@.len() == 5 && "content"@.len() == 7
        && "skill"@.len() == 5 && "source"@.len() == 6 && "version"@.len() == 7
        && "created_at_ms"@.len() == 13 && "updated_at_ms"@.len() == 13);
    assert("title"@[0] == 't' && "skill"@[0] == 's' && "content"@[0] == 'c' && "version"@[0] == 'v'
        && "created_at_ms"@[0] == 'c' && "updated_at_ms"@[0] == 'u' && "source"@[1] == 'o');
    assert("prompt"@[0] == 'p' && "memory"@[0] == 'm' && "subagent"@.len() == 8);
    assert(kind_named(entry.kind.name()) == Some(entry.kind));
    let f0 = Seq::<(Seq<char>, JsonView)>::empty();
    let f1 = f0.push(("id"@, JsonView::Text(entry.id)));
    let f2 = f1.push(("kind"@, JsonView::Text(entry.kind.name())));
    let f3 = f2.push(("title"@, JsonView::Text(entry.title)));
    let f4 = f3.push(("content"@, JsonView::Text(entry.content)));
    lemma_sound_empty(2);
    lemma_sound_push(f0, "id"@, JsonView::Text(entry.id), 2);
    lemma_sound_push(f1, "kind"@, JsonView::Text(entry.kind.name()), 2);
    lemma_sound_push(f2, "title"@, JsonView::Text(entry.title), 2);
    lemma_sound_push(f3, "content"@, JsonView::Text(entry.content), 2);
    let f5 = match entry.skill {
        Some(skill) => f4.push(("skill"@, skill_json(skill))),
        None => f4,
    };
    if let Some(skill) = entry.skill {
        lemma_skill(skill);
        lemma_sound_push(f4, "skill"@, skill_json(skill), 2);
        assert(!(skill_json(skill) is Null));
    }
    let f6 = f5.push(("source"@, JsonView::Text(entry.source)));
    let f7 = f6.push(("version"@, JsonView::Unsigned(entry.version)));
    let f8 = f7.push(("created_at_ms"@, JsonView::Unsigned(entry.created_at_ms)));
    let f9 = f8.push(("updated_at_ms"@, JsonView::Unsigned(entry.updated_at_ms)));
    lemma_sound_push(f5, "source"@, JsonView::Text(entry.source), 2);
    lemma_sound_push(f6, "version"@, JsonView::Unsigned(entry.version), 2);
    lemma_sound_push(f7, "created_at_ms"@, JsonView::Unsigned(entry.created_at_ms), 2);
    lemma_sound_push(f8, "updated_at_ms"@, JsonView::Unsigned(entry.updated_at_ms), 2);
    let j = entry_json(entry);
    assert(j == JsonView::Object(f9));
    assert(lookup(f9, "id"@) == Some(JsonView::Text(entry.id)));
    assert(lookup(f9, "kind"@) == Some(JsonView::Text(entry.kind.name())));
    assert(lookup(f9, "title"@) == Some(JsonView::Text(entry.title)));
    assert(lookup(f9, "content"@) == Some(JsonView::Text(entry.content)));
    assert(lookup(f9, "source"@) == Some(JsonView::Text(entry.source)));
    assert(lookup(f9, "version"@) == Some(JsonView::Unsigned(entry.version)));
    assert(lookup(f9, "created_at_ms"@) == Some(JsonView::Unsigned(entry.created_at_ms)));
    assert(lookup(f9, "updated_at_ms"@) == Some(JsonView::Unsigned(entry.updated_at_ms)));
    assert(decoded_optional_skill(lookup(f9, "skill"@)) == Some(entry.skill));
}

/// An optional entry is read back from its field.
proof fn lemma_optional_entry(entry: EntryView)
    requires
        skill_tame(entry.skill),
    ensures
        decoded_optional_entry(Some(entry_json(entry))) == Some(Some(entry)),
        sound(entry_json(entry), 3),
{
    lemma_entry(entry);
    assert(!(entry_json(entry) is Null));
}

/// A committed edit is read back from its document.
#[verifier::spinoff_prover]
#[verifier::rlimit(60)]
pub proof fn lemma_applied(edit: AppliedView)
    requires
        applied_tame(edit),
        edit.fault() is None,
    ensures
        decoded_applied(applied_json(edit)) == Some(edit),
        sound(applied_json(edit), 4),
        action_named(edit.action.name()) == Some(edit.action),
        applied_json(edit).get("index"@) == Some(JsonView::Unsigned(edit.index as u64)),
        applied_json(edit).get("entry_id"@) == Some(JsonView::Text(edit.entry_id)),
        applied_json(edit).get("action"@) == Some(JsonView::Text(edit.action.name())),
        applied_json(edit).get("before"@) == match edit.before {
            Some(entry) => Some(entry_json(entry)),
            None => None,
        },
        applied_json(edit).get("after"@) == match edit.after {
            Some(entry) => Some(entry_json(entry)),
            None => None,
        },
{
    broadcast use lemma_lookup_push;

    reveal_strlit("index");
    reveal_strlit("entry_id");
    reveal_strlit("action");
    reveal_strlit("before");
    reveal_strlit("after");
    reveal_strlit("create");
    reveal_strlit("update");
    reveal_strlit("delete");
    assert("index"@.len() == 5 && "entry_id"@.len() == 8 && "action"@.len() == 6 && "before"@.len()
        == 6 && "after"@.len() == 5);
    assert("index"@[0] == 'i' && "after"@[0] == 'a' && "action"@[0] == 'a' && "before"@[0] == 'b');
    assert("create"@[0] == 'c' && "update"@[0] == 'u' && "delete"@[0] == 'd');
    assert(action_named(edit.action.name()) == Some(edit.action));
    let f0 = Seq::<(Seq<char>, JsonView)>::empty();
    let f1 = f0.push(("index"@, JsonView::Unsigned(edit.index as u64)));
    let f2 = f1.push(("entry_id"@, JsonView::Text(edit.entry_id)));
    let f3 = f2.push(("action"@, JsonView::Text(edit.action.name())));
    lemma_sound_empty(3);
    lemma_sound_push(f0, "index"@, JsonView::Unsigned(edit.index as u64), 3);
    lemma_sound_push(f1, "entry_id"@, JsonView::Text(edit.entry_id), 3);
    lemma_sound_push(f2, "action"@, JsonView::Text(edit.action.name()), 3);
    let f4 = match edit.before {
        Some(entry) => f3.push(("before"@, entry_json(entry))),
        None => f3,
    };
    if let Some(entry) = edit.before {
        lemma_optional_entry(entry);
        lemma_sound_push(f3, "before"@, entry_json(entry), 3);
    }
    let f5 = match edit.after {
        Some(entry) => f4.push(("after"@, entry_json(entry))),
        None => f4,
    };
    if let Some(entry) = edit.after {
        lemma_optional_entry(entry);
        lemma_sound_push(f4, "after"@, entry_json(entry), 3);
    }
    assert(applied_json(edit) == JsonView::Object(f5));
    assert(lookup(f5, "index"@) == Some(JsonView::Unsigned(edit.index as u64)));
    assert(lookup(f5, "entry_id"@) == Some(JsonView::Text(edit.entry_id)));
    assert(lookup(f5, "action"@) == Some(JsonView::Text(edit.action.name())));
    assert(decoded_optional_entry(lookup(f5, "before"@)) == Some(edit.before));
    assert(decoded_optional_entry(lookup(f5, "after"@)) == Some(edit.after));
}

/// A refused edit is read back from its document.
pub proof fn lemma_rejected(edit: RejectedView)
    ensures
        decoded_rejected(rejected_json(edit)) == Some(edit),
        sound(rejected_json(edit), 1),
        rejected_json(edit).get("index"@) == Some(JsonView::Unsigned(edit.index as u64)),
        rejected_json(edit).get("entry_id"@) == match edit.entry_id {
            Some(id) => Some(JsonView::Text(id)),
            None => None,
        },
        rejected_json(edit).get("error"@) == Some(JsonView::Text(edit.error)),
{
    broadcast use lemma_lookup_push;

    reveal_strlit("index");
    reveal_strlit("entry_id");
    reveal_strlit("error");
    assert("index"@.len() == 5 && "entry_id"@.len() == 8 && "error"@.len() == 5);
    assert("index"@[0] == 'i' && "error"@[0] == 'e');
    let f0 = Seq::<(Seq<char>, JsonView)>::empty();
    let f1 = f0.push(("index"@, JsonView::Unsigned(edit.index as u64)));
    lemma_sound_empty(0);
    lemma_sound_push(f0, "index"@, JsonView::Unsigned(edit.index as u64), 0);
    let f2 = match edit.entry_id {
        Some(id) => f1.push(("entry_id"@, JsonView::Text(id))),
        None => f1,
    };
    if let Some(id) = edit.entry_id {
        lemma_sound_push(f1, "entry_id"@, JsonView::Text(id), 0);
    }
    let f3 = f2.push(("error"@, JsonView::Text(edit.error)));
    lemma_sound_push(f2, "error"@, JsonView::Text(edit.error), 0);
    assert(rejected_json(edit) == JsonView::Object(f3));
    assert(lookup(f3, "index"@) == Some(JsonView::Unsigned(edit.index as u64)));
    assert(lookup(f3, "error"@) == Some(JsonView::Text(edit.error)));
}

/// An evidence reference is read back from its document.
pub proof fn lemma_evidence(evidence: EvidenceView)
    ensures
        decoded_evidence(evidence_json(evidence)) == Some(evidence),
        sound(evidence_json(evidence), 1),
        evidence_json(evidence).get("reference"@) == Some(JsonView::Text(evidence.reference)),
{
    broadcast use lemma_lookup_push;

    reveal_strlit("kind");
    reveal_strlit("reference");
    assert("kind"@.len() == 4 && "reference"@.len() == 9);
    let f0 = Seq::<(Seq<char>, JsonView)>::empty();
    let f1 = f0.push(("kind"@, JsonView::Text(evidence.kind.name())));
    let f2 = f1.push(("reference"@, JsonView::Text(evidence.reference)));
    lemma_sound_empty(0);
    lemma_sound_push(f0, "kind"@, JsonView::Text(evidence.kind.name()), 0);
    lemma_sound_push(f1, "reference"@, JsonView::Text(evidence.reference), 0);
    assert(evidence_json(evidence) == JsonView::Object(f2));
}

/// What brought an event about is read back from its document.
pub proof fn lemma_kind(kind: EventKindView)
    ensures
        decoded_kind(kind_json(kind)) == Some(kind),
        sound(kind_json(kind), 1),
        kind_json(kind).get("type"@) == Some(
            JsonView::Text(
                match kind {
                    EventKindView::Applied => "applied"@,
                    EventKindView::Rollback { .. } => "rollback"@,
                },
            ),
        ),
        kind_json(kind).get("of_event_id"@) == match kind {
            EventKindView::Applied => None,
            EventKindView::Rollback { of_event_id } => Some(JsonView::Text(of_event_id)),
        },
{
    broadcast use lemma_lookup_push;

    reveal_strlit("type");
    reveal_strlit("of_event_id");
    reveal_strlit("applied");
    reveal_strlit("rollback");
    assert("type"@.len() == 4 && "of_event_id"@.len() == 11 && "applied"@.len() == 7
        && "rollback"@.len() == 8);
    let f0 = Seq::<(Seq<char>, JsonView)>::empty();
    lemma_sound_empty(0);
    match kind {
        EventKindView::Applied => {
            lemma_sound_push(f0, "type"@, JsonView::Text("applied"@), 0);
        },
        EventKindView::Rollback { of_event_id } => {
            let f1 = f0.push(("type"@, JsonView::Text("rollback"@)));
            lemma_sound_push(f0, "type"@, JsonView::Text("rollback"@), 0);
            lemma_sound_push(f1, "of_event_id"@, JsonView::Text(of_event_id), 0);
        },
    }
}

pub proof fn lemma_applied_list(edits: Seq<AppliedView>)
    requires
        forall|i: int|
            0 <= i < edits.len() ==> applied_tame(#[trigger] edits[i]) && edits[i].fault() is None,
    ensures
        decoded_applied_list(applied_list(edits)) == Some(edits),
        sound(JsonView::List(applied_list(edits)), 5),
    decreases edits.len(),
{
    let items = applied_list(edits);
    assert forall|i: int| 0 <= i < items.len() implies sound(#[trigger] items[i], 4) by {
        lemma_applied(edits[i]);
    }
    if edits.len() > 0 {
        lemma_applied_list(edits.drop_last());
        assert(items.drop_last() =~= applied_list(edits.drop_last()));
        lemma_applied(edits.last());
        assert(edits.drop_last().push(edits.last()) =~= edits);
    } else {
        assert(edits =~= Seq::empty());
    }
}

pub proof fn lemma_rejected_list(edits: Seq<RejectedView>)
    ensures
        decoded_rejected_list(rejected_list(edits)) == Some(edits),
        sound(JsonView::List(rejected_list(edits)), 2),
    decreases edits.len(),
{
    let items = rejected_list(edits);
    assert forall|i: int| 0 <= i < items.len() implies sound(#[trigger] items[i], 1) by {
        lemma_rejected(edits[i]);
    }
    if edits.len() > 0 {
        lemma_rejected_list(edits.drop_last());
        assert(items.drop_last() =~= rejected_list(edits.drop_last()));
        lemma_rejected(edits.last());
        assert(edits.drop_last().push(edits.last()) =~= edits);
    } else {
        assert(edits =~= Seq::empty());
    }
}

pub proof fn lemma_evidence_list(refs: Seq<EvidenceView>)
    ensures
        decoded_evidence_list(evidence_list(refs)) == Some(refs),
        sound(JsonView::List(evidence_list(refs)), 2),
    decreases refs.len(),
{
    let items = evidence_list(refs);
    assert forall|i: int| 0 <= i < items.len() implies sound(#[trigger] items[i], 1) by {
        lemma_evidence(refs[i]);
    }
    if refs.len() > 0 {
        lemma_evidence_list(refs.drop_last());
        assert(items.drop_last() =~= evidence_list(refs.drop_last()));
        lemma_evidence(refs.last());
        assert(refs.drop_last().push(refs.last()) =~= refs);
    } else {
        assert(refs =~= Seq::empty());
    }
}

/// Whether a document is sound at one depth, it is at a greater one.
pub proof fn lemma_sound_more(j: JsonView, n: nat, m: nat)
    requires
        sound(j, n),
        n <= m,
    ensures
        sound(j, m),
{
    lemma_depth_more(j, n, m);
}

/// Whether every skill in the snapshots of an event is tame.
pub open spec fn event_tame(e: EventView) -> bool {
    forall|i: int| 0 <= i < e.applied.len() ==> applied_tame(#[trigger] e.applied[i])
}

/// The scope of a valid event or ledger is read back from its text.
proof fn lemma_scope(scope: ScopeView)
    requires
        scope.fault() is None,
    ensures
        decoded_scope(Some(scope.text())) == Some(scope),
{
    law_scope_text_round_trip(scope);
}

/// An event is read back from its document.
#[verifier::spinoff_prover]
#[verifier::rlimit(100)]
pub proof fn law_event_document_round_trip(e: EventView)
    requires
        e.scope.fault() is None,
        applied_fault(e.applied) is None,
        event_tame(e),
    ensures
        decoded_event(event_json(e)) == Some(e),
        sound(event_json(e), 6),
{
    broadcast use lemma_lookup_push;

    reveal_strlit("schema_version");
    reveal_strlit("event_id");
    reveal_strlit("scope");
    reveal_strlit("kind");
    reveal_strlit("based_on_revision");
    reveal_strlit("resulting_revision");
    reveal_strlit("summary");
    reveal_strlit("rationale");
    reveal_strlit("expected_outcome");
    reveal_strlit("applied");
    reveal_strlit("rejected");
    reveal_strlit("evidence");
    reveal_strlit("created_at_ms");
    assert("schema_version"@.len() == 14 && "event_id"@.len() == 8 && "scope"@.len() == 5
        && "kind"@.len() == 4 && "based_on_revision"@.len() == 17 && "resulting_revision"@.len()
        == 18 && "summary"@.len() == 7 && "rationale"@.len() == 9 && "expected_outcome"@.len() == 16
        && "applied"@.len() == 7 && "rejected"@.len() == 8 && "evidence"@.len() == 8
        && "created_at_ms"@.len() == 13);
    assert("summary"@[0] == 's' && "applied"@[0] == 'a' && "rejected"@[0] == 'r' && "evidence"@[2]
        == 'i' && "event_id"@[2] == 'e' && "event_id"@[0] == 'e' && "evidence"@[0] == 'e');
    lemma_scope(e.scope);
    lemma_kind(e.kind);
    assert forall|i: int| 0 <= i < e.applied.len() implies applied_tame(#[trigger] e.applied[i])
        && e.applied[i].fault() is None by {
        lemma_applied_checked(e.applied, i);
    }
    lemma_applied_list(e.applied);
    lemma_rejected_list(e.rejected);
    lemma_evidence_list(e.evidence);
    lemma_sound_more(kind_json(e.kind), 1, 5);
    lemma_sound_more(JsonView::List(rejected_list(e.rejected)), 2, 5);
    lemma_sound_more(JsonView::List(evidence_list(e.evidence)), 2, 5);
    let f0 = Seq::<(Seq<char>, JsonView)>::empty();
    let f1 = f0.push(("schema_version"@, JsonView::Unsigned(e.schema_version as u64)));
    let f2 = f1.push(("event_id"@, JsonView::Text(e.event_id)));
    let f3 = f2.push(("scope"@, JsonView::Text(e.scope.text())));
    let f4 = f3.push(("kind"@, kind_json(e.kind)));
    let f5 = f4.push(("based_on_revision"@, JsonView::Unsigned(e.based_on_revision)));
    let f6 = f5.push(("resulting_revision"@, JsonView::Unsigned(e.resulting_revision)));
    let f7 = f6.push(("summary"@, JsonView::Text(e.summary)));
    let f8 = f7.push(("rationale"@, JsonView::Text(e.rationale)));
    let f9 = f8.push(("expected_outcome"@, JsonView::Text(e.expected_outcome)));
    let f10 = f9.push(("applied"@, JsonView::List(applied_list(e.applied))));
    lemma_sound_empty(5);
    lemma_sound_push(f0, "schema_version"@, JsonView::Unsigned(e.schema_version as u64), 5);
    lemma_sound_push(f1, "event_id"@, JsonView::Text(e.event_id), 5);
    lemma_sound_push(f2, "scope"@, JsonView::Text(e.scope.text()), 5);
    lemma_sound_push(f3, "kind"@, kind_json(e.kind), 5);
    lemma_sound_push(f4, "based_on_revision"@, JsonView::Unsigned(e.based_on_revision), 5);
    lemma_sound_push(f5, "resulting_revision"@, JsonView::Unsigned(e.resulting_revision), 5);
    lemma_sound_push(f6, "summary"@, JsonView::Text(e.summary), 5);
    lemma_sound_push(f7, "rationale"@, JsonView::Text(e.rationale), 5);
    lemma_sound_push(f8, "expected_outcome"@, JsonView::Text(e.expected_outcome), 5);
    lemma_sound_push(f9, "applied"@, JsonView::List(applied_list(e.applied)), 5);
    assert(f10 == event_head(e));
    let f11 = if e.rejected.len() > 0 {
        f10.push(("rejected"@, JsonView::List(rejected_list(e.rejected))))
    } else {
        f10
    };
    if e.rejected.len() > 0 {
        lemma_sound_push(f10, "rejected"@, JsonView::List(rejected_list(e.rejected)), 5);
    }
    let f12 = if e.evidence.len() > 0 {
        f11.push(("evidence"@, JsonView::List(evidence_list(e.evidence))))
    } else {
        f11
    };
    if e.evidence.len() > 0 {
        lemma_sound_push(f11, "evidence"@, JsonView::List(evidence_list(e.evidence)), 5);
    }
    let f13 = f12.push(("created_at_ms"@, JsonView::Unsigned(e.created_at_ms)));
    lemma_sound_push(f12, "created_at_ms"@, JsonView::Unsigned(e.created_at_ms), 5);
    let j = event_json(e);
    assert(j == JsonView::Object(f13));
    assert(lookup(f13, "schema_version"@) == Some(JsonView::Unsigned(e.schema_version as u64)));
    assert(lookup(f13, "event_id"@) == Some(JsonView::Text(e.event_id)));
    assert(lookup(f13, "scope"@) == Some(JsonView::Text(e.scope.text())));
    assert(lookup(f13, "kind"@) == Some(kind_json(e.kind)));
    assert(lookup(f13, "based_on_revision"@) == Some(JsonView::Unsigned(e.based_on_revision)));
    assert(lookup(f13, "resulting_revision"@) == Some(JsonView::Unsigned(e.resulting_revision)));
    assert(lookup(f13, "summary"@) == Some(JsonView::Text(e.summary)));
    assert(lookup(f13, "rationale"@) == Some(JsonView::Text(e.rationale)));
    assert(lookup(f13, "expected_outcome"@) == Some(JsonView::Text(e.expected_outcome)));
    assert(lookup(f13, "applied"@) == Some(JsonView::List(applied_list(e.applied))));
    assert(lookup(f13, "created_at_ms"@) == Some(JsonView::Unsigned(e.created_at_ms)));
    if e.rejected.len() > 0 {
        assert(lookup(f13, "rejected"@) == Some(JsonView::List(rejected_list(e.rejected))));
    } else {
        assert(lookup(f13, "rejected"@) is None);
        assert(e.rejected =~= Seq::empty());
    }
    if e.evidence.len() > 0 {
        assert(lookup(f13, "evidence"@) == Some(JsonView::List(evidence_list(e.evidence))));
    } else {
        assert(lookup(f13, "evidence"@) is None);
        assert(e.evidence =~= Seq::empty());
    }
    assert(decoded_lists(j) == Some((e.applied, e.rejected, e.evidence)));
}

/// Whether the entries of a ledger are finitely many, none has the key that `serde_json` keeps for
/// itself, and every skill is tame.
pub open spec fn state_tame(s: StateView) -> bool {
    s.entries.dom().finite() && !s.entries.dom().contains(raw_key()) && forall|k: Seq<char>|
        #[trigger] s.entries.dom().contains(k) ==> skill_tame(s.entries[k].skill)
}

proof fn lemma_entries(keys: Seq<Seq<char>>, entries: Map<Seq<char>, EntryView>)
    requires
        forall|i: int, j: int| 0 <= i < j < keys.len() ==> keys[i] != keys[j],
        !keys.contains(raw_key()),
        forall|i: int| 0 <= i < keys.len() ==> skill_tame(entries[#[trigger] keys[i]].skill),
    ensures
        decoded_entries(entries_json(keys, entries)) is Some,
        decoded_entries(entries_json(keys, entries))->Some_0 == Map::new(
            |k: Seq<char>| keys.contains(k),
            |k: Seq<char>| entries[k],
        ),
        fields_sound(entries_json(keys, entries), 3),
        forall|k: Seq<char>|
            #[trigger] has_key(entries_json(keys, entries), k) <==> keys.contains(k),
    decreases keys.len(),
{
    if keys.len() == 0 {
        lemma_sound_empty(3);
        assert(decoded_entries(entries_json(keys, entries))->Some_0 =~= Map::new(
            |k: Seq<char>| keys.contains(k),
            |k: Seq<char>| entries[k],
        ));
    } else {
        let shorter = keys.drop_last();
        let last = keys.last();
        let before = entries_json(shorter, entries);
        assert(keys[keys.len() - 1] == last);
        assert forall|i: int| 0 <= i < shorter.len() implies skill_tame(
            entries[#[trigger] shorter[i]].skill,
        ) by {
            assert(shorter[i] == keys[i]);
        }
        lemma_contains_last(keys, raw_key());
        lemma_entries(shorter, entries);
        assert(!shorter.contains(last)) by {
            if shorter.contains(last) {
                let i = choose|i: int| 0 <= i < shorter.len() && shorter[i] == last;
                assert(keys[i] == keys[keys.len() - 1]);
            }
        }
        lemma_entry(entries[last]);
        lemma_sound_push(before, last, entry_json(entries[last]), 3);
        let all = entries_json(keys, entries);
        assert(all.drop_last() =~= before);
        assert forall|k: Seq<char>| keys.contains(k) == (shorter.contains(k) || k == last) by {
            lemma_contains_last(keys, k);
        }
        assert(decoded_entries(all)->Some_0 =~= Map::new(
            |k: Seq<char>| keys.contains(k),
            |k: Seq<char>| entries[k],
        ));
    }
}

/// A ledger is read back from its document.
#[verifier::spinoff_prover]
#[verifier::rlimit(60)]
pub proof fn law_state_document_round_trip(s: StateView)
    requires
        s.scope.fault() is None,
        state_tame(s),
    ensures
        decoded_state(state_json(s)) == Some(s),
        sound(state_json(s), 5),
{
    broadcast use lemma_lookup_push;

    reveal_strlit("schema_version");
    reveal_strlit("scope");
    reveal_strlit("revision");
    reveal_strlit("entries");
    assert("schema_version"@.len() == 14 && "scope"@.len() == 5 && "revision"@.len() == 8
        && "entries"@.len() == 7);
    lemma_scope(s.scope);
    let keys = sorted_keys(s.entries.dom());
    lemma_listing_exists(s.entries.dom());
    lemma_listed_apart(keys);
    assert forall|i: int| 0 <= i < keys.len() implies skill_tame(
        s.entries[#[trigger] keys[i]].skill,
    ) by {
        assert(keys.contains(keys[i]));
        assert(s.entries.dom().contains(keys[i]));
    }
    lemma_entries(keys, s.entries);
    let fields = entries_json(keys, s.entries);
    assert(sound(JsonView::Object(fields), 4));
    let f0 = Seq::<(Seq<char>, JsonView)>::empty();
    let f1 = f0.push(("schema_version"@, JsonView::Unsigned(s.schema_version as u64)));
    let f2 = f1.push(("scope"@, JsonView::Text(s.scope.text())));
    let f3 = f2.push(("revision"@, JsonView::Unsigned(s.revision)));
    let f4 = f3.push(("entries"@, JsonView::Object(fields)));
    lemma_sound_empty(4);
    lemma_sound_push(f0, "schema_version"@, JsonView::Unsigned(s.schema_version as u64), 4);
    lemma_sound_push(f1, "scope"@, JsonView::Text(s.scope.text()), 4);
    lemma_sound_push(f2, "revision"@, JsonView::Unsigned(s.revision), 4);
    lemma_sound_push(f3, "entries"@, JsonView::Object(fields), 4);
    let j = state_json(s);
    assert(j == JsonView::Object(f4));
    assert(lookup(f4, "schema_version"@) == Some(JsonView::Unsigned(s.schema_version as u64)));
    assert(lookup(f4, "scope"@) == Some(JsonView::Text(s.scope.text())));
    assert(lookup(f4, "revision"@) == Some(JsonView::Unsigned(s.revision)));
    assert(lookup(f4, "entries"@) == Some(JsonView::Object(fields)));
    assert(decoded_entries(fields)->Some_0 =~= s.entries) by {
        assert forall|k: Seq<char>| keys.contains(k) == s.entries.dom().contains(k) by {}
    }
}

fn read_optional_entry(j: Option<&Json>) -> (r: Option<Option<HarnessEntry>>)
    ensures
        match r {
            Some(entry) => decoded_optional_entry(
                match j {
                    Some(value) => Some(value@),
                    None => None,
                },
            ) == Some(optional_entry(entry)),
            None => decoded_optional_entry(
                match j {
                    Some(value) => Some(value@),
                    None => None,
                },
            ) is None,
        },
{
    match j {
        None => Some(None),
        Some(Json::Null) => Some(None),
        Some(value) => match read_entry(value) {
            Some(entry) => Some(Some(entry)),
            None => None,
        },
    }
}

fn read_applied(j: &Json) -> (r: Option<AppliedEdit>)
    ensures
        match r {
            Some(edit) => decoded_applied(j@) == Some(edit@),
            None => decoded_applied(j@) is None,
        },
{
    match j {
        Json::List(items) => {
            let names: Vec<&str> = vec!["index", "entry_id", "action", "before", "after"];
            assert(name_views(names@) =~= applied_names());
            let o = shape(items, &names, 3)?;
            read_applied_in(&o)
        },
        _ => read_applied_in(j),
    }
}

fn read_applied_in(j: &Json) -> (r: Option<AppliedEdit>)
    ensures
        match r {
            Some(edit) => applied_in(j@) == Some(edit@),
            None => applied_in(j@) is None,
        },
{
    let index: u32 = j.small_at("index")?;
    let entry_id = j.text_at("entry_id")?;
    let name = j.variant_at("action")?;
    let before = read_optional_entry(j.get("before"))?;
    let after = read_optional_entry(j.get("after"))?;
    let action = read_action(name.as_str())?;
    let edit = AppliedEdit { index, entry_id, action, before, after };
    match edit.validate() {
        Ok(()) => Some(edit),
        Err(_) => None,
    }
}

fn read_rejected(j: &Json) -> (r: Option<RejectedEdit>)
    ensures
        match r {
            Some(edit) => decoded_rejected(j@) == Some(edit@),
            None => decoded_rejected(j@) is None,
        },
{
    match j {
        Json::List(items) => {
            let names: Vec<&str> = vec!["index", "entry_id", "error"];
            assert(name_views(names@) =~= rejected_names());
            let o = shape(items, &names, 3)?;
            read_rejected_in(&o)
        },
        _ => read_rejected_in(j),
    }
}

fn read_rejected_in(j: &Json) -> (r: Option<RejectedEdit>)
    ensures
        match r {
            Some(edit) => rejected_in(j@) == Some(edit@),
            None => rejected_in(j@) is None,
        },
{
    let index: u32 = j.small_at("index")?;
    let entry_id = j.optional_text_at("entry_id")?;
    let error = j.text_at("error")?;
    Some(RejectedEdit { index, entry_id, error })
}

fn read_evidence(j: &Json) -> (r: Option<HarnessEvidenceRef>)
    ensures
        match r {
            Some(evidence) => decoded_evidence(j@) == Some(evidence@),
            None => decoded_evidence(j@) is None,
        },
{
    let kind = j.text_at("kind")?;
    let reference = j.text_at("reference")?;
    if same_text(kind.as_str(), "refinement") {
        Some(HarnessEvidenceRef { kind: HarnessEvidenceKind::Refinement, reference })
    } else {
        None
    }
}

fn read_event_kind(j: Option<&Json>) -> (r: Option<RefinementEventKind>)
    ensures
        match r {
            Some(kind) => decoded_kind(
                match j {
                    Some(value) => value@,
                    None => JsonView::Null,
                },
            ) == Some(kind@),
            None => decoded_kind(
                match j {
                    Some(value) => value@,
                    None => JsonView::Null,
                },
            ) is None,
        },
{
    let j = j?;
    if let Json::List(items) = j {
        proof {
            lemma_list_view(items@);
        }
        if items.len() == 1 {
            if let Json::Text(name) = &items[0] {
                if same_text(name.as_str(), "applied") {
                    return Some(RefinementEventKind::Applied);
                }
            }
        }
        if items.len() == 2 {
            if let (Json::Text(name), Json::Text(id)) = (&items[0], &items[1]) {
                if same_text(name.as_str(), "rollback") {
                    return Some(RefinementEventKind::Rollback { of_event_id: id.clone() });
                }
            }
        }
        return None;
    }
    let name = j.text_at("type")?;
    if same_text(name.as_str(), "applied") {
        return Some(RefinementEventKind::Applied);
    }
    if same_text(name.as_str(), "rollback") {
        let of_event_id = j.text_at("of_event_id")?;
        return Some(RefinementEventKind::Rollback { of_event_id });
    }
    None
}

proof fn lemma_applied_refused(items: Seq<JsonView>, n: int)
    requires
        0 <= n <= items.len(),
        decoded_applied_list(items.take(n)) is None,
    ensures
        decoded_applied_list(items) is None,
    decreases items.len(),
{
    if n == items.len() {
        assert(items.take(n) =~= items);
    } else {
        assert(items.drop_last().take(n) =~= items.take(n));
        lemma_applied_refused(items.drop_last(), n);
    }
}

proof fn lemma_rejected_refused(items: Seq<JsonView>, n: int)
    requires
        0 <= n <= items.len(),
        decoded_rejected_list(items.take(n)) is None,
    ensures
        decoded_rejected_list(items) is None,
    decreases items.len(),
{
    if n == items.len() {
        assert(items.take(n) =~= items);
    } else {
        assert(items.drop_last().take(n) =~= items.take(n));
        lemma_rejected_refused(items.drop_last(), n);
    }
}

proof fn lemma_evidence_refused(items: Seq<JsonView>, n: int)
    requires
        0 <= n <= items.len(),
        decoded_evidence_list(items.take(n)) is None,
    ensures
        decoded_evidence_list(items) is None,
    decreases items.len(),
{
    if n == items.len() {
        assert(items.take(n) =~= items);
    } else {
        assert(items.drop_last().take(n) =~= items.take(n));
        lemma_evidence_refused(items.drop_last(), n);
    }
}

fn read_applied_list(items: &Vec<Json>) -> (r: Option<Vec<AppliedEdit>>)
    ensures
        match r {
            Some(edits) => decoded_applied_list(list_view(items@)) == Some(applied_views(edits@)),
            None => decoded_applied_list(list_view(items@)) is None,
        },
{
    let ghost all = list_view(items@);
    let mut out: Vec<AppliedEdit> = Vec::new();
    let mut i: usize = 0;
    proof {
        lemma_list_view(items@);
        assert(all.take(0) =~= Seq::empty());
        assert(applied_views(out@) =~= Seq::empty());
    }
    while i < items.len()
        invariant
            i <= items@.len(),
            all == list_view(items@),
            all.len() == items@.len(),
            forall|j: int| 0 <= j < items@.len() ==> #[trigger] all[j] == items@[j]@,
            decoded_applied_list(all.take(i as int)) == Some(applied_views(out@)),
        decreases items@.len() - i,
    {
        let ghost before = applied_views(out@);
        proof {
            assert(all.take(i + 1).drop_last() =~= all.take(i as int));
            assert(all.take(i + 1).last() == items@[i as int]@);
        }
        match read_applied(&items[i]) {
            Some(edit) => {
                out.push(edit);
                proof {
                    assert(applied_views(out@) =~= before.push(edit@));
                }
            },
            None => {
                proof {
                    lemma_applied_refused(all, i + 1);
                }
                return None;
            },
        }
        i += 1;
    }
    proof {
        assert(all.take(all.len() as int) =~= all);
    }
    Some(out)
}

fn read_rejected_list(items: &Vec<Json>) -> (r: Option<Vec<RejectedEdit>>)
    ensures
        match r {
            Some(edits) => decoded_rejected_list(list_view(items@)) == Some(rejected_views(edits@)),
            None => decoded_rejected_list(list_view(items@)) is None,
        },
{
    let ghost all = list_view(items@);
    let mut out: Vec<RejectedEdit> = Vec::new();
    let mut i: usize = 0;
    proof {
        lemma_list_view(items@);
        assert(all.take(0) =~= Seq::empty());
        assert(rejected_views(out@) =~= Seq::empty());
    }
    while i < items.len()
        invariant
            i <= items@.len(),
            all == list_view(items@),
            all.len() == items@.len(),
            forall|j: int| 0 <= j < items@.len() ==> #[trigger] all[j] == items@[j]@,
            decoded_rejected_list(all.take(i as int)) == Some(rejected_views(out@)),
        decreases items@.len() - i,
    {
        let ghost before = rejected_views(out@);
        proof {
            assert(all.take(i + 1).drop_last() =~= all.take(i as int));
            assert(all.take(i + 1).last() == items@[i as int]@);
        }
        match read_rejected(&items[i]) {
            Some(edit) => {
                out.push(edit);
                proof {
                    assert(rejected_views(out@) =~= before.push(edit@));
                }
            },
            None => {
                proof {
                    lemma_rejected_refused(all, i + 1);
                }
                return None;
            },
        }
        i += 1;
    }
    proof {
        assert(all.take(all.len() as int) =~= all);
    }
    Some(out)
}

fn read_evidence_list(items: &Vec<Json>) -> (r: Option<Vec<HarnessEvidenceRef>>)
    ensures
        match r {
            Some(refs) => decoded_evidence_list(list_view(items@)) == Some(evidence_views(refs@)),
            None => decoded_evidence_list(list_view(items@)) is None,
        },
{
    let ghost all = list_view(items@);
    let mut out: Vec<HarnessEvidenceRef> = Vec::new();
    let mut i: usize = 0;
    proof {
        lemma_list_view(items@);
        assert(all.take(0) =~= Seq::empty());
        assert(evidence_views(out@) =~= Seq::empty());
    }
    while i < items.len()
        invariant
            i <= items@.len(),
            all == list_view(items@),
            all.len() == items@.len(),
            forall|j: int| 0 <= j < items@.len() ==> #[trigger] all[j] == items@[j]@,
            decoded_evidence_list(all.take(i as int)) == Some(evidence_views(out@)),
        decreases items@.len() - i,
    {
        let ghost before = evidence_views(out@);
        proof {
            assert(all.take(i + 1).drop_last() =~= all.take(i as int));
            assert(all.take(i + 1).last() == items@[i as int]@);
        }
        match read_evidence(&items[i]) {
            Some(evidence) => {
                out.push(evidence);
                proof {
                    assert(evidence_views(out@) =~= before.push(evidence@));
                }
            },
            None => {
                proof {
                    lemma_evidence_refused(all, i + 1);
                }
                return None;
            },
        }
        i += 1;
    }
    proof {
        assert(all.take(all.len() as int) =~= all);
    }
    Some(out)
}

fn read_scope(text: &Option<String>) -> (r: Option<HarnessScope>)
    ensures
        match r {
            Some(scope) => decoded_scope(option_view(*text)) == Some(scope@),
            None => decoded_scope(option_view(*text)) is None,
        },
{
    match text {
        Some(t) => match HarnessScope::parse(t.as_str()) {
            Ok(scope) => Some(scope),
            Err(_) => None,
        },
        None => None,
    }
}

/// Reads an event from its document, its contract left aside.
fn read_event(j: &Json) -> (r: Option<RefinementEvent>)
    ensures
        match r {
            Some(event) => decoded_event(j@) == Some(event@),
            None => decoded_event(j@) is None,
        },
{
    match j {
        Json::List(items) => {
            let names: Vec<&str> = vec![
                "schema_version",
                "event_id",
                "scope",
                "kind",
                "based_on_revision",
                "resulting_revision",
                "summary",
                "rationale",
                "expected_outcome",
                "applied",
                "rejected",
                "evidence",
                "created_at_ms",
            ];
            assert(name_views(names@) =~= event_names());
            let o = shape(items, &names, 13)?;
            read_event_in(&o)
        },
        _ => read_event_in(j),
    }
}

#[verifier::spinoff_prover]
#[verifier::rlimit(40)]
fn read_event_in(j: &Json) -> (r: Option<RefinementEvent>)
    ensures
        match r {
            Some(event) => event_in(j@) == Some(event@),
            None => event_in(j@) is None,
        },
{
    let schema_version: u32 = j.small_at("schema_version")?;
    let event_id = j.text_at("event_id")?;
    let scope = read_scope(&j.text_at("scope"))?;
    let kind = read_event_kind(j.get("kind"))?;
    let based_on_revision: u64 = j.unsigned_at("based_on_revision")?;
    let resulting_revision: u64 = j.unsigned_at("resulting_revision")?;
    let summary = j.text_at("summary")?;
    let rationale = j.text_at("rationale")?;
    let expected_outcome = j.text_at("expected_outcome")?;
    let applied = match j.get("applied") {
        Some(Json::List(items)) => read_applied_list(items)?,
        _ => {
            return None;
        },
    };
    let rejected = match j.get("rejected") {
        Some(Json::List(items)) => read_rejected_list(items)?,
        Some(_) => {
            return None;
        },
        None => {
            let none: Vec<RejectedEdit> = Vec::new();
            proof {
                assert(rejected_views(none@) =~= Seq::empty());
            }
            none
        },
    };
    let evidence = match j.get("evidence") {
        Some(Json::List(items)) => read_evidence_list(items)?,
        Some(_) => {
            return None;
        },
        None => {
            let none: Vec<HarnessEvidenceRef> = Vec::new();
            proof {
                assert(evidence_views(none@) =~= Seq::empty());
            }
            none
        },
    };
    let created_at_ms: u64 = j.unsigned_at("created_at_ms")?;
    Some(
        RefinementEvent {
            schema_version,
            event_id,
            scope,
            kind,
            based_on_revision,
            resulting_revision,
            summary,
            rationale,
            expected_outcome,
            applied,
            rejected,
            evidence,
            created_at_ms,
        },
    )
}

proof fn lemma_entries_refused(fields: Seq<(Seq<char>, JsonView)>, n: int)
    requires
        0 <= n <= fields.len(),
        decoded_entries(fields.take(n)) is None,
    ensures
        decoded_entries(fields) is None,
    decreases fields.len(),
{
    if n == fields.len() {
        assert(fields.take(n) =~= fields);
    } else {
        assert(fields.drop_last().take(n) =~= fields.take(n));
        lemma_entries_refused(fields.drop_last(), n);
    }
}

fn read_entries(fields: &Vec<(String, Json)>) -> (r: Option<TextMap<HarnessEntry>>)
    ensures
        match r {
            Some(entries) => decoded_entries(fields_view(fields@)) == Some(entry_views(entries@)),
            None => decoded_entries(fields_view(fields@)) is None,
        },
{
    let ghost all = fields_view(fields@);
    let mut out: TextMap<HarnessEntry> = TextMap::new();
    let mut i: usize = 0;
    proof {
        lemma_fields_view(fields@);
        assert(all.take(0) =~= Seq::empty());
        assert(entry_views(out@) =~= Map::empty());
    }
    while i < fields.len()
        invariant
            i <= fields@.len(),
            all == fields_view(fields@),
            all.len() == fields@.len(),
            forall|j: int|
                0 <= j < fields@.len() ==> #[trigger] all[j] == (fields@[j].0@, fields@[j].1@),
            decoded_entries(all.take(i as int)) == Some(entry_views(out@)),
        decreases fields@.len() - i,
    {
        let ghost before = entry_views(out@);
        proof {
            assert(all.take(i + 1).drop_last() =~= all.take(i as int));
            assert(all.take(i + 1).last() == all[i as int]);
        }
        match read_entry(&fields[i].1) {
            Some(entry) => {
                out.insert(fields[i].0.as_str(), entry);
                proof {
                    assert(entry_views(out@) =~= before.insert(all[i as int].0, entry@));
                }
            },
            None => {
                proof {
                    lemma_entries_refused(all, i + 1);
                }
                return None;
            },
        }
        i += 1;
    }
    proof {
        assert(all.take(all.len() as int) =~= all);
    }
    Some(out)
}

/// Reads a ledger from its document, its contract left aside.
fn read_state(j: &Json) -> (r: Option<EvolutionState>)
    ensures
        match r {
            Some(state) => decoded_state(j@) == Some(state@),
            None => decoded_state(j@) is None,
        },
{
    match j {
        Json::List(items) => {
            let names: Vec<&str> = vec!["schema_version", "scope", "revision", "entries"];
            assert(name_views(names@) =~= state_names());
            let o = shape(items, &names, 4)?;
            read_state_in(&o)
        },
        _ => read_state_in(j),
    }
}

fn read_state_in(j: &Json) -> (r: Option<EvolutionState>)
    ensures
        match r {
            Some(state) => state_in(j@) == Some(state@),
            None => state_in(j@) is None,
        },
{
    let schema_version: u32 = j.small_at("schema_version")?;
    let scope = read_scope(&j.text_at("scope"))?;
    let revision: u64 = j.unsigned_at("revision")?;
    let entries = match j.get("entries") {
        Some(Json::Object(fields)) => read_entries(fields)?,
        _ => {
            return None;
        },
    };
    Some(EvolutionState { schema_version, scope, revision, entries })
}

/// The document that bytes spell, when they spell one. It is a `serde_json::Value`, which keeps the
/// last of two fields of one name.
pub open spec fn document_in(bytes: Seq<u8>) -> Option<JsonView> {
    if valid_utf8(bytes) {
        json_parsed(decode_utf8(bytes))
    } else {
        None
    }
}

fn read_document(bytes: &[u8]) -> (r: Option<Json>)
    ensures
        match r {
            Some(j) => document_in(bytes@) == Some(j@),
            None => document_in(bytes@) is None,
        },
{
    match utf8_text(bytes) {
        Some(text) => {
            proof {
                encode_utf8_decode_utf8(text@);
            }
            Json::parse(text.as_str())
        },
        None => None,
    }
}

/// The event that bytes hold, or why they are refused.
pub open spec fn event_read(bytes: Seq<u8>) -> Result<EventView, Refusal> {
    if bytes.len() > MAX_REFINEMENT_EVENT_BYTES {
        Err(
            Refusal::EventTooLarge {
                actual: bytes.len() as usize,
                maximum: MAX_REFINEMENT_EVENT_BYTES,
            },
        )
    } else {
        match document_in(bytes) {
            None => Err(Refusal::Serialization("the bytes are not a JSON document"@)),
            Some(document) => match decoded_event(document) {
                None => Err(Refusal::Serialization("the document is not a refinement event"@)),
                Some(event) => match event.fault() {
                    Some(e) => Err(e),
                    None => Ok(event),
                },
            },
        }
    }
}

/// The bytes of an event, or why it has none.
pub open spec fn event_bytes(e: EventView) -> Result<Seq<u8>, Refusal> {
    match e.fault() {
        Some(r) => Err(r),
        None => {
            let text = json_written(event_json(e));
            if encode_utf8(text).len() > MAX_REFINEMENT_EVENT_BYTES {
                Err(
                    Refusal::EventTooLarge {
                        actual: encode_utf8(text).len() as usize,
                        maximum: MAX_REFINEMENT_EVENT_BYTES,
                    },
                )
            } else {
                Ok(encode_utf8(text))
            }
        },
    }
}

/// The ledger that bytes hold, or why they are refused.
pub open spec fn state_read(bytes: Seq<u8>) -> Result<StateView, Refusal> {
    if bytes.len() > MAX_EVOLUTION_STATE_BYTES {
        Err(
            Refusal::StateTooLarge {
                actual: bytes.len() as usize,
                maximum: MAX_EVOLUTION_STATE_BYTES,
            },
        )
    } else {
        match document_in(bytes) {
            None => Err(Refusal::Serialization("the bytes are not a JSON document"@)),
            Some(document) => match decoded_state(document) {
                None => Err(Refusal::Serialization("the document is not an evolution state"@)),
                Some(state) => match state.fault() {
                    Some(e) => Err(e),
                    None => Ok(state),
                },
            },
        }
    }
}

/// The bytes of a ledger, or why it has none.
pub open spec fn state_bytes(s: StateView) -> Result<Seq<u8>, Refusal> {
    match s.fault() {
        Some(r) => Err(r),
        None => {
            let text = json_written(state_json(s));
            if encode_utf8(text).len() > MAX_EVOLUTION_STATE_BYTES {
                Err(
                    Refusal::StateTooLarge {
                        actual: encode_utf8(text).len() as usize,
                        maximum: MAX_EVOLUTION_STATE_BYTES,
                    },
                )
            } else {
                Ok(encode_utf8(text))
            }
        },
    }
}

proof fn lemma_entry_tame(entry: HarnessEntry)
    requires
        entry@.fault() is None,
    ensures
        skill_tame(entry@.skill),
{
    if let Some(skill) = entry.skill {
        skill.arguments.lemma_finite();
        assert(skill@.arguments.dom() =~= skill.arguments@.dom());
        let arguments = skill@.arguments;
        let keys = sorted_keys(arguments.dom());
        lemma_listing_exists(arguments.dom());
        if arguments.dom().contains(raw_key()) {
            assert(keys.contains(raw_key()));
            let i = choose|i: int| 0 <= i < keys.len() && keys[i] == raw_key();
            lemma_arguments_checked(keys, arguments, i);
            lemma_sound_empty(0);
            assert(!is_alphanumeric('$'));
        }
    }
}

pub proof fn lemma_applied_checked(edits: Seq<AppliedView>, i: int)
    requires
        applied_fault(edits) is None,
        0 <= i < edits.len(),
    ensures
        edits[i].fault() is None,
    decreases edits.len(),
{
    if i > 0 {
        lemma_applied_checked(edits.drop_first(), i - 1);
    }
}

/// The skills in the snapshots of committed edits that are in order are tame.
pub proof fn lemma_event_tame(event: RefinementEvent)
    requires
        applied_fault(event@.applied) is None,
    ensures
        event_tame(event@),
{
    assert forall|i: int| 0 <= i < event@.applied.len() implies applied_tame(
        #[trigger] event@.applied[i],
    ) by {
        let edit = event.applied@[i];
        lemma_applied_checked(event@.applied, i);
        if let Some(entry) = edit.before {
            lemma_entry_tame(entry);
        }
        if let Some(entry) = edit.after {
            lemma_entry_tame(entry);
        }
    }
}

proof fn lemma_state_tame(state: EvolutionState)
    requires
        state@.fault() is None,
    ensures
        state_tame(state@),
{
    state.entries.lemma_finite();
    let entries = state@.entries;
    assert(entries.dom() =~= state.entries@.dom());
    let keys = sorted_keys(entries.dom());
    lemma_listing_exists(entries.dom());
    assert forall|k: Seq<char>| #[trigger] entries.dom().contains(k) implies k != raw_key()
        && skill_tame(entries[k].skill) by {
        assert(keys.contains(k));
        let i = choose|i: int| 0 <= i < keys.len() && keys[i] == k;
        lemma_entries_checked(keys, entries, i);
        lemma_entry_tame(state.entries@[k]);
        lemma_sound_empty(0);
        assert(!is_alphanumeric('$'));
    }
}

impl RefinementEvent {
    /// The event as a document.
    pub fn document(&self) -> (r: Json)
        ensures
            r@ == event_json(self@),
    {
        let mut fields: Vec<(String, Json)> = Vec::new();
        let scope = self.scope.to_text();
        push_field(&mut fields, "schema_version", number_json(self.schema_version as u64));
        push_field(&mut fields, "event_id", text_json(self.event_id.as_str()));
        push_field(&mut fields, "scope", text_json(scope.as_str()));
        push_field(&mut fields, "kind", kind_document(&self.kind));
        push_field(&mut fields, "based_on_revision", number_json(self.based_on_revision));
        push_field(&mut fields, "resulting_revision", number_json(self.resulting_revision));
        push_field(&mut fields, "summary", text_json(self.summary.as_str()));
        push_field(&mut fields, "rationale", text_json(self.rationale.as_str()));
        push_field(&mut fields, "expected_outcome", text_json(self.expected_outcome.as_str()));
        push_field(&mut fields, "applied", applied_documents(&self.applied));
        if self.rejected.len() > 0 {
            push_field(&mut fields, "rejected", rejected_documents(&self.rejected));
        }
        if self.evidence.len() > 0 {
            push_field(&mut fields, "evidence", evidence_documents(&self.evidence));
        }
        push_field(&mut fields, "created_at_ms", number_json(self.created_at_ms));
        object_json(fields)
    }

    /// Writes the event, checked and within its bound. What is written is read back as the same
    /// event.
    pub fn to_json_vec(&self) -> (r: Result<Vec<u8>, EvolutionError>)
        ensures
            match event_bytes(self@) {
                Ok(bytes) => r is Ok && r->Ok_0@ == bytes && event_read(bytes) == Ok::<
                    EventView,
                    Refusal,
                >(self@),
                Err(e) => refusal(r) == Some(e),
            },
    {
        self.validate()?;
        let document = self.document();
        proof {
            lemma_valid_event(self@);
            lemma_event_tame(*self);
            law_event_document_round_trip(self@);
            lemma_depth_more(event_json(self@), 6, 100);
        }
        let text = document.write();
        let bytes = crate::digest::bytes_of(text.as_str());
        if bytes.len() > MAX_REFINEMENT_EVENT_BYTES {
            return Err(
                EvolutionError::EventTooLarge {
                    actual: bytes.len(),
                    maximum: MAX_REFINEMENT_EVENT_BYTES,
                },
            );
        }
        proof {
            encode_utf8_valid_utf8(text@);
            encode_utf8_decode_utf8(text@);
        }
        Ok(bytes)
    }

    /// Reads an event, within its bound, and checks it: an event whose content does not have its
    /// identity is refused.
    pub fn from_json_slice(bytes: &[u8]) -> (r: Result<RefinementEvent, EvolutionError>)
        ensures
            match event_read(bytes@) {
                Ok(event) => r is Ok && r->Ok_0@ == event && event_tame(event)
                    && identity_reads_back(event),
                Err(e) => refusal(r) == Some(e),
            },
    {
        if bytes.len() > MAX_REFINEMENT_EVENT_BYTES {
            return Err(
                EvolutionError::EventTooLarge {
                    actual: bytes.len(),
                    maximum: MAX_REFINEMENT_EVENT_BYTES,
                },
            );
        }
        let document = match read_document(bytes) {
            Some(document) => document,
            None => {
                return Err(
                    EvolutionError::Serialization("the bytes are not a JSON document".to_owned()),
                );
            },
        };
        match read_event(&document) {
            Some(event) => {
                event.validate()?;
                Ok(event)
            },
            None => Err(
                EvolutionError::Serialization("the document is not a refinement event".to_owned()),
            ),
        }
    }
}

impl EvolutionState {
    /// The ledger as a document.
    pub fn document(&self) -> (r: Json)
        ensures
            r@ == state_json(self@),
    {
        let scope = self.scope.to_text();
        let count: usize = self.entries.len();
        let ghost entries = self@.entries;
        let ghost keys = sorted_keys(entries.dom());
        proof {
            assert(entries.dom() =~= self.entries@.dom());
            assert(keys.take(0) =~= Seq::empty());
        }
        let mut table: Vec<(String, Json)> = Vec::new();
        let mut i: usize = 0;
        proof {
            assert(fields_view(table@) =~= entries_json(keys.take(0), entries));
        }
        while i < count
            invariant
                i <= count,
                count == keys.len(),
                keys == self.entries.keys(),
                entries == self@.entries,
                entries.dom() == self.entries@.dom(),
                fields_view(table@) == entries_json(keys.take(i as int), entries),
            decreases count - i,
        {
            let key = self.entries.key_at(i);
            let entry = self.entries.value_at(i);
            proof {
                assert(entries[key@] == entry@);
                assert(keys.take(i + 1).drop_last() =~= keys.take(i as int));
                assert(keys.take(i + 1).last() == key@);
            }
            push_field(&mut table, key, entry_document(entry));
            i += 1;
        }
        proof {
            assert(keys.take(keys.len() as int) =~= keys);
        }
        let mut fields: Vec<(String, Json)> = Vec::new();
        push_field(&mut fields, "schema_version", number_json(self.schema_version as u64));
        push_field(&mut fields, "scope", text_json(scope.as_str()));
        push_field(&mut fields, "revision", number_json(self.revision));
        push_field(&mut fields, "entries", object_json(table));
        object_json(fields)
    }

    /// Writes the ledger, checked and within its bound. What is written is read back as the same
    /// ledger.
    pub fn to_json_vec(&self) -> (r: Result<Vec<u8>, EvolutionError>)
        ensures
            match state_bytes(self@) {
                Ok(bytes) => r is Ok && r->Ok_0@ == bytes && state_read(bytes) == Ok::<
                    StateView,
                    Refusal,
                >(self@),
                Err(e) => refusal(r) == Some(e),
            },
    {
        self.validate()?;
        let document = self.document();
        proof {
            lemma_state_tame(*self);
            law_state_document_round_trip(self@);
            lemma_depth_more(state_json(self@), 5, 100);
        }
        let text = document.write();
        let bytes = crate::digest::bytes_of(text.as_str());
        if bytes.len() > MAX_EVOLUTION_STATE_BYTES {
            return Err(
                EvolutionError::StateTooLarge {
                    actual: bytes.len(),
                    maximum: MAX_EVOLUTION_STATE_BYTES,
                },
            );
        }
        proof {
            encode_utf8_valid_utf8(text@);
            encode_utf8_decode_utf8(text@);
        }
        Ok(bytes)
    }

    /// Reads a ledger, within its bound, and checks it.
    pub fn from_json_slice(bytes: &[u8]) -> (r: Result<EvolutionState, EvolutionError>)
        ensures
            match state_read(bytes@) {
                Ok(state) => r is Ok && r->Ok_0@ == state,
                Err(e) => refusal(r) == Some(e),
            },
    {
        if bytes.len() > MAX_EVOLUTION_STATE_BYTES {
            return Err(
                EvolutionError::StateTooLarge {
                    actual: bytes.len(),
                    maximum: MAX_EVOLUTION_STATE_BYTES,
                },
            );
        }
        let document = match read_document(bytes) {
            Some(document) => document,
            None => {
                return Err(
                    EvolutionError::Serialization("the bytes are not a JSON document".to_owned()),
                );
            },
        };
        match read_state(&document) {
            Some(state) => {
                state.validate()?;
                Ok(state)
            },
            None => Err(
                EvolutionError::Serialization("the document is not an evolution state".to_owned()),
            ),
        }
    }
}

/// What a valid event has, among other things.
#[verifier::spinoff_prover]
#[verifier::rlimit(40)]
pub proof fn lemma_valid_event(e: EventView)
    requires
        e.fault() is None,
    ensures
        e.scope.fault() is None,
        applied_fault(e.applied) is None,
        e.event_id == event_identity(e),
{
}

} // verus!
