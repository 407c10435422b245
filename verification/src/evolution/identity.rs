//! That an identity names one event: the canonical text that it is taken over tells every two
//! events apart.

use crate::digest::sha256_hex;
use crate::evolution::entry::{EntryView, SkillView};
use crate::evolution::event::{
    applied_fault, applied_json, applied_list, arguments_json, entry_json, event_identity,
    event_payload, evidence_json, evidence_list, kind_json, rejected_json, rejected_list,
    skill_json, AppliedView, EventKindView, EventView, RejectedView,
    REFINEMENT_EVENT_DIGEST_DOMAIN,
};
use crate::evolution::wire::{
    applied_tame, decoded_event, document_in, event_read, event_tame, lemma_applied,
    lemma_applied_checked, lemma_applied_list, lemma_arguments, lemma_entry, lemma_evidence,
    lemma_evidence_list, lemma_kind, lemma_listed_apart, lemma_rejected, lemma_rejected_list,
    lemma_skill, lemma_sound_more, lemma_valid_event, skill_tame,
};
use crate::evolution::law_scope_text_round_trip;
use crate::harness::{EvidenceView, HarnessEvidenceKind};
use crate::json::{
    canonical_fields, canonical_form, canonical_list, distinct_keys, has_key, insert_field,
    integral, json_parsed, json_written, lemma_canonical_writable, lemma_depth_more,
    lemma_lookup_absent, lemma_lookup_push, lemma_sound_empty, lemma_sound_push, lookup, raw_key,
    sound, writable, JsonView,
};
use crate::text_map::{lemma_listing_exists, sorted_keys};
use vstd::prelude::*;
use vstd::utf8::{encode_utf8, encode_utf8_decode_utf8};

verus! {

proof fn lemma_insert_lookup(
    fields: Seq<(Seq<char>, JsonView)>,
    key: Seq<char>,
    value: JsonView,
    sought: Seq<char>,
)
    ensures
        lookup(insert_field(fields, key, value), sought) == if sought == key {
            Some(value)
        } else {
            lookup(fields, sought)
        },
    decreases fields.len(),
{
    let out = insert_field(fields, key, value);
    reveal_with_fuel(lookup, 3);
    if fields.len() == 0 {
        assert(out.drop_first() =~= Seq::empty());
        assert(out[0] == (key, value));
    } else if fields[0].0 == key {
        assert(out.drop_first() =~= fields.drop_first());
        assert(out[0] == (key, value));
    } else if crate::text::text_lt(key, fields[0].0) {
        assert(out.drop_first() =~= fields);
        assert(out[0] == (key, value));
    } else {
        lemma_insert_lookup(fields.drop_first(), key, value, sought);
        assert(out.drop_first() =~= insert_field(fields.drop_first(), key, value));
        assert(out[0] == fields[0]);
    }
}

/// Where canonical values come from.
pub open spec fn canonical_option(value: Option<JsonView>) -> Option<JsonView> {
    match value {
        Some(v) => Some(canonical_form(v)),
        None => None,
    }
}

proof fn lemma_canonical_lookup(fields: Seq<(Seq<char>, JsonView)>, key: Seq<char>)
    requires
        distinct_keys(fields),
    ensures
        lookup(canonical_fields(fields), key) == canonical_option(lookup(fields, key)),
    decreases fields.len(),
{
    if fields.len() > 0 {
        let rest = fields.drop_last();
        let last = fields.last();
        assert(distinct_keys(rest)) by {
            assert forall|i: int, j: int| 0 <= i < j < rest.len() implies (#[trigger] rest[i]).0
                != (#[trigger] rest[j]).0 by {
                assert(rest[i] == fields[i] && rest[j] == fields[j]);
            }
        }
        lemma_canonical_lookup(rest, key);
        lemma_insert_lookup(canonical_fields(rest), last.0, canonical_form(last.1), key);
        lemma_lookup_push(rest, last, key);
        assert(rest.push(last) =~= fields);
        assert(!has_key(rest, last.0)) by {
            if has_key(rest, last.0) {
                let i = choose|i: int| 0 <= i < rest.len() && (#[trigger] rest[i]).0 == last.0;
                assert(fields[i].0 == fields[fields.len() - 1].0);
            }
        }
        lemma_lookup_absent(rest, last.0);
    }
}

/// Two objects with one canonical form have one canonical form under every key.
proof fn lemma_told(x: JsonView, y: JsonView, key: Seq<char>)
    requires
        x is Object,
        y is Object,
        writable(x),
        writable(y),
        canonical_form(x) == canonical_form(y),
    ensures
        canonical_option(x.get(key)) == canonical_option(y.get(key)),
{
    lemma_canonical_lookup(x->Object_0, key);
    lemma_canonical_lookup(y->Object_0, key);
}

proof fn lemma_canonical_items(items: Seq<JsonView>)
    ensures
        canonical_list(items).len() == items.len(),
        forall|i: int|
            0 <= i < items.len() ==> #[trigger] canonical_list(items)[i] == canonical_form(
                items[i],
            ),
    decreases items.len(),
{
    if items.len() > 0 {
        lemma_canonical_items(items.drop_last());
    }
}

proof fn lemma_insert_from(
    fields: Seq<(Seq<char>, JsonView)>,
    key: Seq<char>,
    value: JsonView,
    i: int,
)
    requires
        0 <= i < insert_field(fields, key, value).len(),
    ensures
        insert_field(fields, key, value)[i] == (key, value) || exists|j: int|
            0 <= j < fields.len() && #[trigger] fields[j] == insert_field(fields, key, value)[i],
    decreases fields.len(),
{
    let out = insert_field(fields, key, value);
    if fields.len() == 0 {
    } else if fields[0].0 == key {
        if i > 0 {
            assert(fields[i] == out[i]);
        }
    } else if crate::text::text_lt(key, fields[0].0) {
        if i > 0 {
            assert(fields[i - 1] == out[i]);
        }
    } else if i == 0 {
        assert(fields[0] == out[0]);
    } else {
        let rest = fields.drop_first();
        assert(out[i] == insert_field(rest, key, value)[i - 1]);
        lemma_insert_from(rest, key, value, i - 1);
        if out[i] != (key, value) {
            let j = choose|j: int| 0 <= j < rest.len() && #[trigger] rest[j] == out[i];
            assert(fields[j + 1] == out[i]);
        }
    }
}

/// Every canonical field is one of the fields, its value in canonical form.
proof fn lemma_canonical_from(fields: Seq<(Seq<char>, JsonView)>, i: int)
    requires
        0 <= i < canonical_fields(fields).len(),
    ensures
        exists|j: int|
            0 <= j < fields.len() && canonical_fields(fields)[i] == (
                (#[trigger] fields[j]).0,
                canonical_form(fields[j].1),
            ),
    decreases fields.len(),
{
    if fields.len() > 0 {
        let rest = fields.drop_last();
        let last = fields.last();
        let out = canonical_fields(fields);
        let before = canonical_fields(rest);
        lemma_insert_from(before, last.0, canonical_form(last.1), i);
        if out[i] == (last.0, canonical_form(last.1)) {
            assert(fields[fields.len() - 1] == last);
        } else {
            let k = choose|k: int| 0 <= k < before.len() && #[trigger] before[k] == out[i];
            lemma_canonical_from(rest, k);
            let j = choose|j: int|
                0 <= j < rest.len() && before[k] == (
                    (#[trigger] rest[j]).0,
                    canonical_form(rest[j].1),
                );
            assert(fields[j] == rest[j]);
        }
    }
}

/// A sound document is sound in canonical form.
proof fn lemma_canonical_sound(j: JsonView, n: nat)
    requires
        sound(j, n),
        integral(j),
    ensures
        sound(canonical_form(j), n),
    decreases j,
{
    lemma_canonical_writable(j);
    match j {
        JsonView::List(items) => {
            assert(decreases_to!(j => j->List_0));
            lemma_canonical_items(items);
            let out = canonical_list(items);
            assert forall|i: int| 0 <= i < out.len() implies sound(
                #[trigger] out[i],
                (n - 1) as nat,
            ) by {
                assert(sound(items[i], (n - 1) as nat));
                lemma_canonical_sound(items[i], (n - 1) as nat);
            }
        },
        JsonView::Object(fields) => {
            assert(decreases_to!(j => j->Object_0));
            let out = canonical_fields(fields);
            assert forall|i: int| 0 <= i < out.len() implies (#[trigger] out[i]).0 != raw_key()
                && sound(out[i].1, (n - 1) as nat) by {
                lemma_canonical_from(fields, i);
                let k = choose|k: int|
                    0 <= k < fields.len() && out[i] == (
                        (#[trigger] fields[k]).0,
                        canonical_form(fields[k].1),
                    );
                assert(sound(fields[k].1, (n - 1) as nat));
                lemma_canonical_sound(fields[k].1, (n - 1) as nat);
            }
        },
        _ => {},
    }
}

/// The canonical payload of an event that is in order can be written and read back.
pub proof fn lemma_identity_sound(e: EventView)
    requires
        applied_fault(e.applied) is None,
        event_tame(e),
        integral(event_payload(e)),
    ensures
        sound(canonical_form(event_payload(e)), 100),
{
    lemma_payload(e);
    lemma_canonical_sound(event_payload(e), 6);
    lemma_depth_more(canonical_form(event_payload(e)), 6, 100);
}

proof fn lemma_arguments_lookup(
    keys: Seq<Seq<char>>,
    arguments: Map<Seq<char>, Seq<char>>,
    k: Seq<char>,
)
    requires
        forall|i: int, j: int| 0 <= i < j < keys.len() ==> keys[i] != keys[j],
    ensures
        lookup(arguments_json(keys, arguments), k) == if keys.contains(k) {
            Some(JsonView::Text(arguments[k]))
        } else {
            None
        },
    decreases keys.len(),
{
    if keys.len() > 0 {
        let shorter = keys.drop_last();
        lemma_arguments_lookup(shorter, arguments, k);
        lemma_lookup_push(
            arguments_json(shorter, arguments),
            (keys.last(), JsonView::Text(arguments[keys.last()])),
            k,
        );
        if shorter.contains(k) {
            let i = choose|i: int| 0 <= i < shorter.len() && shorter[i] == k;
            assert(keys[i] == k);
        }
        if keys.last() == k {
            assert(keys[keys.len() - 1] == k);
        }
        if keys.contains(k) {
            let i = choose|i: int| 0 <= i < keys.len() && keys[i] == k;
            if i < shorter.len() {
                assert(shorter[i] == k);
            }
        }
    }
}

proof fn lemma_skill_told(a: SkillView, b: SkillView)
    requires
        skill_tame(Some(a)),
        skill_tame(Some(b)),
        canonical_form(skill_json(a)) == canonical_form(skill_json(b)),
    ensures
        a == b,
{
    let x = skill_json(a);
    let y = skill_json(b);
    lemma_skill(a);
    lemma_skill(b);
    lemma_told(x, y, "invocation"@);
    lemma_told(x, y, "arguments"@);
    let left = sorted_keys(a.arguments.dom());
    let right = sorted_keys(b.arguments.dom());
    lemma_listing_exists(a.arguments.dom());
    lemma_listing_exists(b.arguments.dom());
    lemma_listed_apart(left);
    lemma_listed_apart(right);
    assert forall|k: Seq<char>| #[trigger] a.arguments.dom().contains(k)
        == b.arguments.dom().contains(k) && (a.arguments.dom().contains(k) ==> a.arguments[k]
        == b.arguments[k]) by {
        lemma_arguments_lookup(left, a.arguments, k);
        lemma_arguments_lookup(right, b.arguments, k);
        assert(left.contains(k) == a.arguments.dom().contains(k));
        assert(right.contains(k) == b.arguments.dom().contains(k));
        if left.len() > 0 && right.len() > 0 {
            lemma_arguments(left, a.arguments);
            lemma_arguments(right, b.arguments);
            lemma_told(
                JsonView::Object(arguments_json(left, a.arguments)),
                JsonView::Object(arguments_json(right, b.arguments)),
                k,
            );
        }
    }
    assert(a.arguments.dom() =~= b.arguments.dom());
    assert(a.arguments =~= b.arguments);
}

#[verifier::spinoff_prover]
#[verifier::rlimit(40)]
proof fn lemma_entry_told(a: EntryView, b: EntryView)
    requires
        skill_tame(a.skill),
        skill_tame(b.skill),
        canonical_form(entry_json(a)) == canonical_form(entry_json(b)),
    ensures
        a == b,
{
    let x = entry_json(a);
    let y = entry_json(b);
    lemma_entry(a);
    lemma_entry(b);
    lemma_told(x, y, "id"@);
    lemma_told(x, y, "kind"@);
    lemma_told(x, y, "title"@);
    lemma_told(x, y, "content"@);
    lemma_told(x, y, "skill"@);
    lemma_told(x, y, "source"@);
    lemma_told(x, y, "version"@);
    lemma_told(x, y, "created_at_ms"@);
    lemma_told(x, y, "updated_at_ms"@);
    match (a.skill, b.skill) {
        (Some(s), Some(t)) => {
            lemma_skill_told(s, t);
        },
        _ => {},
    }
}

#[verifier::spinoff_prover]
#[verifier::rlimit(40)]
proof fn lemma_applied_told(a: AppliedView, b: AppliedView)
    requires
        applied_tame(a),
        applied_tame(b),
        a.fault() is None,
        b.fault() is None,
        canonical_form(applied_json(a)) == canonical_form(applied_json(b)),
    ensures
        a == b,
{
    let x = applied_json(a);
    let y = applied_json(b);
    lemma_applied(a);
    lemma_applied(b);
    lemma_told(x, y, "index"@);
    lemma_told(x, y, "entry_id"@);
    lemma_told(x, y, "action"@);
    lemma_told(x, y, "before"@);
    lemma_told(x, y, "after"@);
    match (a.before, b.before) {
        (Some(s), Some(t)) => {
            lemma_entry_told(s, t);
        },
        _ => {},
    }
    match (a.after, b.after) {
        (Some(s), Some(t)) => {
            lemma_entry_told(s, t);
        },
        _ => {},
    }
}

proof fn lemma_rejected_told(a: RejectedView, b: RejectedView)
    requires
        canonical_form(rejected_json(a)) == canonical_form(rejected_json(b)),
    ensures
        a == b,
{
    let x = rejected_json(a);
    let y = rejected_json(b);
    lemma_rejected(a);
    lemma_rejected(b);
    lemma_told(x, y, "index"@);
    lemma_told(x, y, "entry_id"@);
    lemma_told(x, y, "error"@);
}

proof fn lemma_evidence_told(a: EvidenceView, b: EvidenceView)
    requires
        canonical_form(evidence_json(a)) == canonical_form(evidence_json(b)),
    ensures
        a == b,
{
    let x = evidence_json(a);
    let y = evidence_json(b);
    lemma_evidence(a);
    lemma_evidence(b);
    lemma_told(x, y, "reference"@);
    assert(a.kind == HarnessEvidenceKind::Refinement && b.kind == HarnessEvidenceKind::Refinement);
}

proof fn lemma_kind_told(a: EventKindView, b: EventKindView)
    requires
        canonical_form(kind_json(a)) == canonical_form(kind_json(b)),
    ensures
        a == b,
{
    let x = kind_json(a);
    let y = kind_json(b);
    lemma_kind(a);
    lemma_kind(b);
    lemma_told(x, y, "type"@);
    lemma_told(x, y, "of_event_id"@);
}

/// What a payload holds under its keys.
#[verifier::spinoff_prover]
#[verifier::rlimit(100)]
proof fn lemma_payload(e: EventView)
    requires
        applied_fault(e.applied) is None,
        event_tame(e),
    ensures
        sound(event_payload(e), 6),
        event_payload(e).get("schema_version"@) == Some(
            JsonView::Unsigned(e.schema_version as u64),
        ),
        event_payload(e).get("scope"@) == Some(JsonView::Text(e.scope.text())),
        event_payload(e).get("kind"@) == Some(kind_json(e.kind)),
        event_payload(e).get("based_on_revision"@) == Some(
            JsonView::Unsigned(e.based_on_revision),
        ),
        event_payload(e).get("resulting_revision"@) == Some(
            JsonView::Unsigned(e.resulting_revision),
        ),
        event_payload(e).get("summary"@) == Some(JsonView::Text(e.summary)),
        event_payload(e).get("rationale"@) == Some(JsonView::Text(e.rationale)),
        event_payload(e).get("expected_outcome"@) == Some(JsonView::Text(e.expected_outcome)),
        event_payload(e).get("applied"@) == Some(JsonView::List(applied_list(e.applied))),
        event_payload(e).get("rejected"@) == Some(JsonView::List(rejected_list(e.rejected))),
        event_payload(e).get("evidence"@) == Some(JsonView::List(evidence_list(e.evidence))),
        event_payload(e).get("created_at_ms"@) == Some(JsonView::Unsigned(e.created_at_ms)),
{
    broadcast use lemma_lookup_push;

    reveal_strlit("schema_version");
    reveal_strlit("scope");
    reveal_strlit("kind");
    reveal_strlit("based_on_revision");
    reveal_strlit("resulting_revision");
    reveal_strlit("summary");
    reveal_strlit("rationale");
    reveal_strlit("expected_outcome");
    reveal_strlit("applied");
    reveal_strlit("rejected");
    reveal_strlit("evidence");
    reveal_strlit("created_at_ms");
    assert("schema_version"@.len() == 14 && "scope"@.len() == 5 && "kind"@.len() == 4
        && "based_on_revision"@.len() == 17 && "resulting_revision"@.len() == 18 && "summary"@.len()
        == 7 && "rationale"@.len() == 9 && "expected_outcome"@.len() == 16 && "applied"@.len() == 7
        && "rejected"@.len() == 8 && "evidence"@.len() == 8 && "created_at_ms"@.len() == 13);
    assert("summary"@[0] == 's' && "applied"@[0] == 'a' && "rejected"@[0] == 'r' && "evidence"@[0]
        == 'e');
    lemma_kind(e.kind);
    assert forall|i: int| 0 <= i < e.applied.len() implies applied_tame(#[trigger] e.applied[i])
        && e.applied[i].fault() is None by {
        lemma_applied_checked(e.applied, i);
    }
    lemma_applied_list(e.applied);
    lemma_rejected_list(e.rejected);
    lemma_evidence_list(e.evidence);
    lemma_sound_more(kind_json(e.kind), 1, 5);
    lemma_sound_more(JsonView::List(rejected_list(e.rejected)), 2, 5);
    lemma_sound_more(JsonView::List(evidence_list(e.evidence)), 2, 5);
    let f0 = Seq::<(Seq<char>, JsonView)>::empty();
    let f1 = f0.push(("schema_version"@, JsonView::Unsigned(e.schema_version as u64)));
    let f2 = f1.push(("scope"@, JsonView::Text(e.scope.text())));
    let f3 = f2.push(("kind"@, kind_json(e.kind)));
    let f4 = f3.push(("based_on_revision"@, JsonView::Unsigned(e.based_on_revision)));
    let f5 = f4.push(("resulting_revision"@, JsonView::Unsigned(e.resulting_revision)));
    let f6 = f5.push(("summary"@, JsonView::Text(e.summary)));
    let f7 = f6.push(("rationale"@, JsonView::Text(e.rationale)));
    let f8 = f7.push(("expected_outcome"@, JsonView::Text(e.expected_outcome)));
    let f9 = f8.push(("applied"@, JsonView::List(applied_list(e.applied))));
    let f10 = f9.push(("rejected"@, JsonView::List(rejected_list(e.rejected))));
    let f11 = f10.push(("evidence"@, JsonView::List(evidence_list(e.evidence))));
    let f12 = f11.push(("created_at_ms"@, JsonView::Unsigned(e.created_at_ms)));
    lemma_sound_empty(5);
    lemma_sound_push(f0, "schema_version"@, JsonView::Unsigned(e.schema_version as u64), 5);
    lemma_sound_push(f1, "scope"@, JsonView::Text(e.scope.text()), 5);
    lemma_sound_push(f2, "kind"@, kind_json(e.kind), 5);
    lemma_sound_push(f3, "based_on_revision"@, JsonView::Unsigned(e.based_on_revision), 5);
    lemma_sound_push(f4, "resulting_revision"@, JsonView::Unsigned(e.resulting_revision), 5);
    lemma_sound_push(f5, "summary"@, JsonView::Text(e.summary), 5);
    lemma_sound_push(f6, "rationale"@, JsonView::Text(e.rationale), 5);
    lemma_sound_push(f7, "expected_outcome"@, JsonView::Text(e.expected_outcome), 5);
    lemma_sound_push(f8, "applied"@, JsonView::List(applied_list(e.applied)), 5);
    lemma_sound_push(f9, "rejected"@, JsonView::List(rejected_list(e.rejected)), 5);
    lemma_sound_push(f10, "evidence"@, JsonView::List(evidence_list(e.evidence)), 5);
    lemma_sound_push(f11, "created_at_ms"@, JsonView::Unsigned(e.created_at_ms), 5);
    assert(event_payload(e) == JsonView::Object(f12));
}

/// Two events whose payloads have one canonical form differ in their identities at most.
#[verifier::spinoff_prover]
#[verifier::rlimit(60)]
proof fn lemma_payload_told(a: EventView, b: EventView)
    requires
        a.scope.fault() is None,
        b.scope.fault() is None,
        applied_fault(a.applied) is None,
        applied_fault(b.applied) is None,
        event_tame(a),
        event_tame(b),
        canonical_form(event_payload(a)) == canonical_form(event_payload(b)),
    ensures
        b == (EventView { event_id: b.event_id, ..a }),
{
    let x = event_payload(a);
    let y = event_payload(b);
    lemma_payload(a);
    lemma_payload(b);
    lemma_told(x, y, "schema_version"@);
    lemma_told(x, y, "scope"@);
    lemma_told(x, y, "kind"@);
    lemma_told(x, y, "based_on_revision"@);
    lemma_told(x, y, "resulting_revision"@);
    lemma_told(x, y, "summary"@);
    lemma_told(x, y, "rationale"@);
    lemma_told(x, y, "expected_outcome"@);
    lemma_told(x, y, "applied"@);
    lemma_told(x, y, "rejected"@);
    lemma_told(x, y, "evidence"@);
    lemma_told(x, y, "created_at_ms"@);
    law_scope_text_round_trip(a.scope);
    law_scope_text_round_trip(b.scope);
    lemma_kind_told(a.kind, b.kind);
    lemma_canonical_items(applied_list(a.applied));
    lemma_canonical_items(applied_list(b.applied));
    lemma_canonical_items(rejected_list(a.rejected));
    lemma_canonical_items(rejected_list(b.rejected));
    lemma_canonical_items(evidence_list(a.evidence));
    lemma_canonical_items(evidence_list(b.evidence));
    assert forall|i: int| 0 <= i < a.applied.len() implies a.applied[i] == b.applied[i] by {
        lemma_applied_checked(a.applied, i);
        lemma_applied_checked(b.applied, i);
        assert(canonical_list(applied_list(a.applied))[i] == canonical_list(
            applied_list(b.applied),
        )[i]);
        lemma_applied_told(a.applied[i], b.applied[i]);
    }
    assert(a.applied =~= b.applied);
    assert forall|i: int| 0 <= i < a.rejected.len() implies a.rejected[i] == b.rejected[i] by {
        assert(canonical_list(rejected_list(a.rejected))[i] == canonical_list(
            rejected_list(b.rejected),
        )[i]);
        lemma_rejected_told(a.rejected[i], b.rejected[i]);
    }
    assert(a.rejected =~= b.rejected);
    assert forall|i: int| 0 <= i < a.evidence.len() implies a.evidence[i] == b.evidence[i] by {
        assert(canonical_list(evidence_list(a.evidence))[i] == canonical_list(
            evidence_list(b.evidence),
        )[i]);
        lemma_evidence_told(a.evidence[i], b.evidence[i]);
    }
    assert(a.evidence =~= b.evidence);
}

/// The canonical text that the identity of an event is taken over.
pub open spec fn identity_text(e: EventView) -> Seq<char> {
    json_written(canonical_form(event_payload(e)))
}

/// Whether that text reads back as what it was written from.
pub open spec fn identity_reads_back(e: EventView) -> bool {
    json_parsed(identity_text(e)) == Some(canonical_form(event_payload(e)))
}

/// The bytes that the identity of an event is the digest of.
pub open spec fn identity_bytes(e: EventView) -> Seq<u8> {
    encode_utf8(REFINEMENT_EVENT_DIGEST_DOMAIN@) + encode_utf8(identity_text(e))
}

proof fn lemma_text_of_bytes(domain: Seq<u8>, a: Seq<char>, b: Seq<char>)
    requires
        domain + encode_utf8(a) == domain + encode_utf8(b),
    ensures
        a == b,
{
    let x = domain + encode_utf8(a);
    let y = domain + encode_utf8(b);
    let n = domain.len() as int;
    assert(x.skip(n) =~= encode_utf8(a));
    assert(y.skip(n) =~= encode_utf8(b));
    encode_utf8_decode_utf8(a);
    encode_utf8_decode_utf8(b);
}

#[verifier::spinoff_prover]
#[verifier::rlimit(40)]
proof fn lemma_one_event(a: EventView, b: EventView)
    requires
        a.scope.fault() is None,
        b.scope.fault() is None,
        applied_fault(a.applied) is None,
        applied_fault(b.applied) is None,
        event_tame(a),
        event_tame(b),
        identity_reads_back(a),
        identity_reads_back(b),
        sha256_hex(identity_bytes(a)) == sha256_hex(identity_bytes(b)) ==> identity_bytes(a)
            == identity_bytes(b),
        event_identity(a) == event_identity(b),
    ensures
        b == (EventView { event_id: b.event_id, ..a }),
{
    reveal_strlit("sha256:");
    let x = "sha256:"@ + sha256_hex(identity_bytes(a));
    let y = "sha256:"@ + sha256_hex(identity_bytes(b));
    assert(event_identity(a) == x);
    assert(event_identity(b) == y);
    assert(x.skip(7) =~= sha256_hex(identity_bytes(a)));
    assert(y.skip(7) =~= sha256_hex(identity_bytes(b)));
    lemma_text_of_bytes(
        encode_utf8(REFINEMENT_EVENT_DIGEST_DOMAIN@),
        identity_text(a),
        identity_text(b),
    );
    lemma_payload_told(a, b);
}

/// Two valid events of one identity are one event, as long as SHA-256 tells the bytes apart that
/// their identities are taken over. That an event is tame and that its canonical text reads back
/// is ensured of every event that was checked.
#[verifier::spinoff_prover]
#[verifier::rlimit(60)]
pub proof fn law_identities_name_one_event(a: EventView, b: EventView)
    requires
        a.fault() is None,
        b.fault() is None,
        event_tame(a),
        event_tame(b),
        identity_reads_back(a),
        identity_reads_back(b),
        sha256_hex(identity_bytes(a)) == sha256_hex(identity_bytes(b)) ==> identity_bytes(a)
            == identity_bytes(b),
        a.event_id == b.event_id,
    ensures
        a == b,
{
    lemma_valid_event(a);
    lemma_valid_event(b);
    lemma_one_event(a, b);
}

/// An event that was changed under its identity is refused wherever it is read, as long as SHA-256
/// tells the two contents apart. An event that is read and passes is tame, and its canonical text
/// reads back.
#[verifier::spinoff_prover]
#[verifier::rlimit(60)]
pub proof fn law_changed_events_are_refused(event: EventView, changed: EventView, bytes: Seq<u8>)
    requires
        event.fault() is None,
        event_tame(event),
        identity_reads_back(event),
        changed.fault() is None ==> event_tame(changed) && identity_reads_back(changed),
        sha256_hex(identity_bytes(event)) == sha256_hex(identity_bytes(changed))
            ==> identity_bytes(event) == identity_bytes(changed),
        changed.event_id == event.event_id,
        changed != event,
        document_in(bytes) matches Some(document) && decoded_event(document) == Some(changed),
    ensures
        changed.fault() is Some,
        event_read(bytes) is Err,
{
    if changed.fault() is None {
        law_identities_name_one_event(event, changed);
    }
}

} // verus!
