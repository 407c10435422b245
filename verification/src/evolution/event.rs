//! Refinement events: the append-only record of what a proposal or a rollback changed.

use crate::digest::{digest_in_domain, domain_digest};
use crate::evolution::edit::{optional_entry, RefinementAction};
use crate::evolution::entry::{
    entry_id_fault, validate_entry_id, EntryView, HarnessEntry, HarnessSkillContract, SkillView,
};
use crate::evolution::identity::{identity_reads_back, lemma_identity_sound};
use crate::evolution::wire::{event_tame, lemma_event_tame};
use crate::evolution::{
    first_of, invalid, joined, joined3, refusal, text_fault, validate_text, EvolutionError,
    HarnessScope, Refusal, ScopeView, MAX_HARNESS_EVIDENCE_REFS, MAX_REFINEMENT_EDITS,
    MAX_REFINEMENT_TEXT_BYTES, REFINEMENT_EVENT_SCHEMA_VERSION,
};
use crate::harness::{EvidenceView, HarnessEvidenceRef};
use crate::json::{
    canonical_form, fields_integral, fields_view, integral, items_integral, json_written,
    lemma_canonical_writable, list_json, list_view, number_json, object_json, push_field, push_item,
    text_json, Json, JsonView,
};
use crate::text::{
    as_optional, chars_of, decimal, hex_digit, is_hex_digit, option_view, optional_view,
    push_decimal, same_text, starts_with, strip_prefix,
};
use crate::text_map::sorted_keys;
use vstd::prelude::*;
use vstd::utf8::encode_utf8;

verus! {

/// The domain that event identities are taken in.
pub const REFINEMENT_EVENT_DIGEST_DOMAIN: &'static str =
    "sophon-sdk.harness-refinement-event.v1\0";

/// One committed edit with the entry before and after it.
#[derive(Debug, PartialEq, Eq)]
pub struct AppliedEdit {
    pub index: u32,
    pub entry_id: String,
    pub action: RefinementAction,
    pub before: Option<HarnessEntry>,
    pub after: Option<HarnessEntry>,
}

/// What an [`AppliedEdit`] says.
pub struct AppliedView {
    pub index: u32,
    pub entry_id: Seq<char>,
    pub action: RefinementAction,
    pub before: Option<EntryView>,
    pub after: Option<EntryView>,
}

impl View for AppliedEdit {
    type V = AppliedView;

    open spec fn view(&self) -> AppliedView {
        AppliedView {
            index: self.index,
            entry_id: self.entry_id@,
            action: self.action,
            before: optional_entry(self.before),
            after: optional_entry(self.after),
        }
    }
}

/// What is wrong with a snapshot that a committed edit records.
pub open spec fn snapshot_fault(snapshot: Option<EntryView>, id: Seq<char>) -> Option<Refusal> {
    match snapshot {
        Some(entry) => first_of(
            entry.fault(),
            if entry.id != id {
                Some(Refusal::Invalid("an applied edit snapshot does not address its own entry"@))
            } else {
                None
            },
        ),
        None => None,
    }
}

impl AppliedView {
    /// Whether the snapshots are those that the action leaves behind.
    pub open spec fn snapshots_fit(self) -> bool {
        &&& self.before is Some <==> !(self.action is Create)
        &&& self.after is Some <==> !(self.action is Delete)
    }

    /// What is wrong with the record.
    pub open spec fn fault(self) -> Option<Refusal> {
        first_of(
            entry_id_fault(self.entry_id),
            if !self.snapshots_fit() {
                Some(
                    Refusal::Invalid(
                        "a "@ + self.action.name()
                            + " applied edit records inconsistent before/after snapshots"@,
                    ),
                )
            } else {
                first_of(
                    snapshot_fault(self.before, self.entry_id),
                    snapshot_fault(self.after, self.entry_id),
                )
            },
        )
    }
}

/// Checks a snapshot that a committed edit records.
fn validate_snapshot(snapshot: &Option<HarnessEntry>, id: &str) -> (r: Result<(), EvolutionError>)
    ensures
        refusal(r) == snapshot_fault(optional_entry(*snapshot), id@),
{
    if let Some(entry) = snapshot {
        entry.validate()?;
        if !same_text(entry.id.as_str(), id) {
            return Err(invalid("an applied edit snapshot does not address its own entry"));
        }
    }
    Ok(())
}

impl AppliedEdit {
    pub fn index(&self) -> (r: u32)
        ensures
            r == self@.index,
    {
        self.index
    }

    pub fn entry_id(&self) -> (r: &str)
        ensures
            r@ == self@.entry_id,
    {
        self.entry_id.as_str()
    }

    pub fn action(&self) -> (r: RefinementAction)
        ensures
            r == self@.action,
    {
        self.action
    }

    pub fn before(&self) -> (r: Option<&HarnessEntry>)
        ensures
            match r {
                Some(e) => self@.before == Some(e@),
                None => self@.before is None,
            },
    {
        self.before.as_ref()
    }

    pub fn after(&self) -> (r: Option<&HarnessEntry>)
        ensures
            match r {
                Some(e) => self@.after == Some(e@),
                None => self@.after is None,
            },
    {
        self.after.as_ref()
    }

    /// Checks the record.
    pub fn validate(&self) -> (r: Result<(), EvolutionError>)
        ensures
            refusal(r) == self@.fault(),
    {
        validate_entry_id(self.entry_id.as_str())?;
        let before_expected = self.action != RefinementAction::Create;
        let after_expected = self.action != RefinementAction::Delete;
        if self.before.is_some() != before_expected || self.after.is_some() != after_expected {
            return Err(
                EvolutionError::Invalid(
                    joined3(
                        "a ",
                        self.action.as_str(),
                        " applied edit records inconsistent before/after snapshots",
                    ),
                ),
            );
        }
        validate_snapshot(&self.before, self.entry_id.as_str())?;
        validate_snapshot(&self.after, self.entry_id.as_str())
    }
}

/// One edit that the ledger refused.
#[derive(Debug, PartialEq, Eq)]
pub struct RejectedEdit {
    pub index: u32,
    pub entry_id: Option<String>,
    pub error: String,
}

/// What a [`RejectedEdit`] says.
pub struct RejectedView {
    pub index: u32,
    pub entry_id: Option<Seq<char>>,
    pub error: Seq<char>,
}

impl View for RejectedEdit {
    type V = RejectedView;

    open spec fn view(&self) -> RejectedView {
        RejectedView {
            index: self.index,
            entry_id: option_view(self.entry_id),
            error: self.error@,
        }
    }
}

impl RejectedView {
    /// What is wrong with the record.
    pub open spec fn fault(self) -> Option<Refusal> {
        text_fault(self.error, MAX_REFINEMENT_TEXT_BYTES, "rejection error"@, false)
    }
}

impl RejectedEdit {
    pub fn index(&self) -> (r: u32)
        ensures
            r == self@.index,
    {
        self.index
    }

    pub fn entry_id(&self) -> (r: Option<&str>)
        ensures
            optional_view(r) == self@.entry_id,
    {
        as_optional(&self.entry_id)
    }

    pub fn error(&self) -> (r: &str)
        ensures
            r@ == self@.error,
    {
        self.error.as_str()
    }

    /// Checks the record.
    pub fn validate(&self) -> (r: Result<(), EvolutionError>)
        ensures
            refusal(r) == self@.fault(),
    {
        validate_text(self.error.as_str(), MAX_REFINEMENT_TEXT_BYTES, "rejection error", false)
    }
}

/// What brought an event about.
#[derive(Debug, PartialEq, Eq)]
pub enum RefinementEventKind {
    Applied,
    Rollback { of_event_id: String },
}

/// What a [`RefinementEventKind`] says.
pub enum EventKindView {
    Applied,
    Rollback { of_event_id: Seq<char> },
}

impl View for RefinementEventKind {
    type V = EventKindView;

    open spec fn view(&self) -> EventKindView {
        match self {
            RefinementEventKind::Applied => EventKindView::Applied,
            RefinementEventKind::Rollback { of_event_id } => EventKindView::Rollback {
                of_event_id: of_event_id@,
            },
        }
    }
}

/// The append-only record of one application or rollback. Its identity is a digest of its
/// content.
#[derive(Debug, PartialEq, Eq)]
pub struct RefinementEvent {
    pub schema_version: u32,
    pub event_id: String,
    pub scope: HarnessScope,
    pub kind: RefinementEventKind,
    pub based_on_revision: u64,
    pub resulting_revision: u64,
    pub summary: String,
    pub rationale: String,
    pub expected_outcome: String,
    pub applied: Vec<AppliedEdit>,
    pub rejected: Vec<RejectedEdit>,
    pub evidence: Vec<HarnessEvidenceRef>,
    pub created_at_ms: u64,
}

/// What a [`RefinementEvent`] says.
pub struct EventView {
    pub schema_version: u32,
    pub event_id: Seq<char>,
    pub scope: ScopeView,
    pub kind: EventKindView,
    pub based_on_revision: u64,
    pub resulting_revision: u64,
    pub summary: Seq<char>,
    pub rationale: Seq<char>,
    pub expected_outcome: Seq<char>,
    pub applied: Seq<AppliedView>,
    pub rejected: Seq<RejectedView>,
    pub evidence: Seq<EvidenceView>,
    pub created_at_ms: u64,
}

/// What each committed edit says.
pub open spec fn applied_views(edits: Seq<AppliedEdit>) -> Seq<AppliedView> {
    Seq::new(edits.len(), |i: int| edits[i]@)
}

/// What each refused edit says.
pub open spec fn rejected_views(edits: Seq<RejectedEdit>) -> Seq<RejectedView> {
    Seq::new(edits.len(), |i: int| edits[i]@)
}

/// What each evidence reference says.
pub open spec fn evidence_views(refs: Seq<HarnessEvidenceRef>) -> Seq<EvidenceView> {
    Seq::new(refs.len(), |i: int| refs[i]@)
}

impl View for RefinementEvent {
    type V = EventView;

    open spec fn view(&self) -> EventView {
        EventView {
            schema_version: self.schema_version,
            event_id: self.event_id@,
            scope: self.scope@,
            kind: self.kind@,
            based_on_revision: self.based_on_revision,
            resulting_revision: self.resulting_revision,
            summary: self.summary@,
            rationale: self.rationale@,
            expected_outcome: self.expected_outcome@,
            applied: applied_views(self.applied@),
            rejected: rejected_views(self.rejected@),
            evidence: evidence_views(self.evidence@),
            created_at_ms: self.created_at_ms,
        }
    }
}

/// The arguments of a skill contract as JSON fields.
pub open spec fn arguments_json(
    keys: Seq<Seq<char>>,
    arguments: Map<Seq<char>, Seq<char>>,
) -> Seq<(Seq<char>, JsonView)>
    decreases keys.len(),
{
    if keys.len() == 0 {
        Seq::empty()
    } else {
        arguments_json(keys.drop_last(), arguments).push(
            (keys.last(), JsonView::Text(arguments[keys.last()])),
        )
    }
}

/// A skill contract as a JSON document.
pub open spec fn skill_json(skill: SkillView) -> JsonView {
    let head = Seq::<(Seq<char>, JsonView)>::empty().push(
        ("invocation"@, JsonView::Text(skill.invocation)),
    );
    let keys = sorted_keys(skill.arguments.dom());
    JsonView::Object(
        if keys.len() == 0 {
            head
        } else {
            head.push(("arguments"@, JsonView::Object(arguments_json(keys, skill.arguments))))
        },
    )
}

/// An entry as a JSON document.
pub open spec fn entry_json(entry: EntryView) -> JsonView {
    let head = Seq::<(Seq<char>, JsonView)>::empty().push(("id"@, JsonView::Text(entry.id))).push(
        ("kind"@, JsonView::Text(entry.kind.name())),
    ).push(("title"@, JsonView::Text(entry.title))).push(
        ("content"@, JsonView::Text(entry.content)),
    );
    let body = match entry.skill {
        Some(skill) => head.push(("skill"@, skill_json(skill))),
        None => head,
    };
    JsonView::Object(
        body.push(("source"@, JsonView::Text(entry.source))).push(
            ("version"@, JsonView::Unsigned(entry.version)),
        ).push(("created_at_ms"@, JsonView::Unsigned(entry.created_at_ms))).push(
            ("updated_at_ms"@, JsonView::Unsigned(entry.updated_at_ms)),
        ),
    )
}

/// A committed edit as a JSON document.
pub open spec fn applied_json(edit: AppliedView) -> JsonView {
    let head = Seq::<(Seq<char>, JsonView)>::empty().push(
        ("index"@, JsonView::Unsigned(edit.index as u64)),
    ).push(("entry_id"@, JsonView::Text(edit.entry_id))).push(
        ("action"@, JsonView::Text(edit.action.name())),
    );
    let with_before = match edit.before {
        Some(entry) => head.push(("before"@, entry_json(entry))),
        None => head,
    };
    JsonView::Object(
        match edit.after {
            Some(entry) => with_before.push(("after"@, entry_json(entry))),
            None => with_before,
        },
    )
}

/// A refused edit as a JSON document.
pub open spec fn rejected_json(edit: RejectedView) -> JsonView {
    let head = Seq::<(Seq<char>, JsonView)>::empty().push(
        ("index"@, JsonView::Unsigned(edit.index as u64)),
    );
    let body = match edit.entry_id {
        Some(id) => head.push(("entry_id"@, JsonView::Text(id))),
        None => head,
    };
    JsonView::Object(body.push(("error"@, JsonView::Text(edit.error))))
}

/// An evidence reference as a JSON document.
pub open spec fn evidence_json(evidence: EvidenceView) -> JsonView {
    JsonView::Object(
        Seq::<(Seq<char>, JsonView)>::empty().push(
            ("kind"@, JsonView::Text(evidence.kind.name())),
        ).push(("reference"@, JsonView::Text(evidence.reference))),
    )
}

/// What brought an event about, as a JSON document.
pub open spec fn kind_json(kind: EventKindView) -> JsonView {
    match kind {
        EventKindView::Applied => JsonView::Object(
            Seq::<(Seq<char>, JsonView)>::empty().push(("type"@, JsonView::Text("applied"@))),
        ),
        EventKindView::Rollback { of_event_id } => JsonView::Object(
            Seq::<(Seq<char>, JsonView)>::empty().push(
                ("type"@, JsonView::Text("rollback"@)),
            ).push(("of_event_id"@, JsonView::Text(of_event_id))),
        ),
    }
}

/// The lists of an event as JSON documents.
pub open spec fn applied_list(edits: Seq<AppliedView>) -> Seq<JsonView> {
    Seq::new(edits.len(), |i: int| applied_json(edits[i]))
}

pub open spec fn rejected_list(edits: Seq<RejectedView>) -> Seq<JsonView> {
    Seq::new(edits.len(), |i: int| rejected_json(edits[i]))
}

pub open spec fn evidence_list(refs: Seq<EvidenceView>) -> Seq<JsonView> {
    Seq::new(refs.len(), |i: int| evidence_json(refs[i]))
}

/// Everything of an event but its identity, as a JSON document.
pub open spec fn event_payload(e: EventView) -> JsonView {
    JsonView::Object(
        Seq::<(Seq<char>, JsonView)>::empty().push(
            ("schema_version"@, JsonView::Unsigned(e.schema_version as u64)),
        ).push(("scope"@, JsonView::Text(e.scope.text()))).push(("kind"@, kind_json(e.kind))).push(
            ("based_on_revision"@, JsonView::Unsigned(e.based_on_revision)),
        ).push(("resulting_revision"@, JsonView::Unsigned(e.resulting_revision))).push(
            ("summary"@, JsonView::Text(e.summary)),
        ).push(("rationale"@, JsonView::Text(e.rationale))).push(
            ("expected_outcome"@, JsonView::Text(e.expected_outcome)),
        ).push(("applied"@, JsonView::List(applied_list(e.applied)))).push(
            ("rejected"@, JsonView::List(rejected_list(e.rejected))),
        ).push(("evidence"@, JsonView::List(evidence_list(e.evidence)))).push(
            ("created_at_ms"@, JsonView::Unsigned(e.created_at_ms)),
        ),
    )
}

/// The identity of an event: the digest of its canonical payload.
pub open spec fn event_identity(e: EventView) -> Seq<char> {
    domain_digest(
        encode_utf8(REFINEMENT_EVENT_DIGEST_DOMAIN@),
        encode_utf8(json_written(canonical_form(event_payload(e)))),
    )
}

/// Whether a text is `sha256:` and 64 hexadecimal digits.
pub open spec fn sha256_id(value: Seq<char>) -> bool {
    &&& starts_with(value, "sha256:"@)
    &&& hex64(value.skip(7))
}

/// Whether a text is 64 hexadecimal digits.
pub open spec fn hex64(hex: Seq<char>) -> bool {
    hex.len() == 64 && forall|i: int| 0 <= i < hex.len() ==> is_hex_digit(#[trigger] hex[i])
}

/// What is wrong with a content identity.
pub open spec fn sha256_id_fault(value: Seq<char>, name: Seq<char>) -> Option<Refusal> {
    if !starts_with(value, "sha256:"@) {
        Some(Refusal::Invalid(name + " must use the sha256 prefix"@))
    } else if !hex64(value.skip(7)) {
        Some(Refusal::Invalid(name + " must contain exactly 32 SHA-256 bytes"@))
    } else {
        None
    }
}

/// Checks a content identity.
pub fn validate_sha256_id(value: &str, name: &str) -> (r: Result<(), EvolutionError>)
    ensures
        refusal(r) == sha256_id_fault(value@, name@),
{
    proof {
        reveal_strlit("sha256:");
    }
    let hex = match strip_prefix(value, "sha256:") {
        Some(hex) => hex,
        None => {
            return Err(EvolutionError::Invalid(joined(name, " must use the sha256 prefix")));
        },
    };
    let chars = chars_of(hex.as_str());
    let mut good = chars.len() == 64;
    let mut i: usize = 0;
    while good && i < chars.len()
        invariant
            i <= chars@.len(),
            chars@ == hex@,
            good ==> chars@.len() == 64 && forall|j: int|
                0 <= j < i ==> is_hex_digit(#[trigger] hex@[j]),
            !good ==> !hex64(hex@),
        decreases chars@.len() - i,
    {
        if !hex_digit(chars[i]) {
            assert(!is_hex_digit(hex@[i as int]));
            good = false;
        }
        i += 1;
    }
    if !good {
        return Err(EvolutionError::Invalid(joined(name, " must contain exactly 32 SHA-256 bytes")));
    }
    Ok(())
}

/// The indexes of the edits that an event records.
pub open spec fn event_indexes(e: EventView) -> Seq<u32> {
    Seq::new(e.applied.len(), |i: int| e.applied[i].index) + Seq::new(
        e.rejected.len(),
        |i: int| e.rejected[i].index,
    )
}

/// What is wrong with the first faulty committed edit.
pub open spec fn applied_fault(edits: Seq<AppliedView>) -> Option<Refusal>
    decreases edits.len(),
{
    if edits.len() == 0 {
        None
    } else {
        first_of(edits[0].fault(), applied_fault(edits.drop_first()))
    }
}

/// What is wrong with the first faulty refused edit.
pub open spec fn rejected_fault(edits: Seq<RejectedView>) -> Option<Refusal>
    decreases edits.len(),
{
    if edits.len() == 0 {
        None
    } else {
        first_of(edits[0].fault(), rejected_fault(edits.drop_first()))
    }
}

impl EventView {
    /// What is wrong with the head of the event: its schema, scope, revisions and texts.
    pub open spec fn head_fault(self) -> Option<Refusal> {
        first_of(
            if self.schema_version != REFINEMENT_EVENT_SCHEMA_VERSION {
                Some(
                    Refusal::Invalid(
                        "unsupported refinement event schema "@ + decimal(
                            self.schema_version as nat,
                        ),
                    ),
                )
            } else {
                self.scope.fault()
            },
            first_of(
                if self.based_on_revision + 1 != self.resulting_revision {
                    Some(
                        Refusal::Invalid(
                            "a refinement event must advance its revision by exactly one"@,
                        ),
                    )
                } else {
                    None
                },
                first_of(
                    text_fault(self.summary, MAX_REFINEMENT_TEXT_BYTES, "event summary"@, true),
                    first_of(
                        text_fault(
                            self.rationale,
                            MAX_REFINEMENT_TEXT_BYTES,
                            "event rationale"@,
                            true,
                        ),
                        first_of(
                            text_fault(
                                self.expected_outcome,
                                MAX_REFINEMENT_TEXT_BYTES,
                                "event expected outcome"@,
                                true,
                            ),
                            match self.kind {
                                EventKindView::Applied => None,
                                EventKindView::Rollback { of_event_id } => sha256_id_fault(
                                    of_event_id,
                                    "rolled-back event ID"@,
                                ),
                            },
                        ),
                    ),
                ),
            ),
        )
    }

    /// What is wrong with the edits that the event records.
    pub open spec fn edits_fault(self) -> Option<Refusal> {
        if self.applied.len() == 0 && self.rejected.len() == 0 {
            Some(Refusal::Invalid("a refinement event must record at least one edit"@))
        } else if self.applied.len() + self.rejected.len() > MAX_REFINEMENT_EDITS {
            Some(
                Refusal::Invalid(
                    "a refinement event records more than "@ + decimal(MAX_REFINEMENT_EDITS as nat)
                        + " edits"@,
                ),
            )
        } else if !event_indexes(self).no_duplicates() {
            Some(Refusal::Invalid("a refinement event records one edit index twice"@))
        } else {
            first_of(applied_fault(self.applied), rejected_fault(self.rejected))
        }
    }

    /// What is wrong with the event, its identity left aside.
    pub open spec fn content_fault(self) -> Option<Refusal> {
        first_of(
            self.head_fault(),
            first_of(
                self.edits_fault(),
                if self.evidence.len() > MAX_HARNESS_EVIDENCE_REFS {
                    Some(
                        Refusal::Invalid(
                            "a refinement event cites more than "@ + decimal(
                                MAX_HARNESS_EVIDENCE_REFS as nat,
                            ) + " evidence references"@,
                        ),
                    )
                } else {
                    None
                },
            ),
        )
    }

    /// What is wrong with the event.
    pub open spec fn fault(self) -> Option<Refusal> {
        first_of(
            self.content_fault(),
            if self.event_id != event_identity(self) {
                Some(Refusal::Invalid("refinement event identity does not match its contents"@))
            } else {
                None
            },
        )
    }
}

fn skill_document(skill: &HarnessSkillContract) -> (r: Json)
    ensures
        r@ == skill_json(skill@),
        integral(r@),
{
    let mut fields: Vec<(String, Json)> = Vec::new();
    push_field(&mut fields, "invocation", text_json(skill.invocation.as_str()));
    let n: usize = skill.arguments.len();
    let ghost keys = skill.arguments.keys();
    proof {
        assert(skill@.arguments.dom() =~= skill.arguments@.dom());
        assert(keys.take(0) =~= Seq::empty());
    }
    if n > 0 {
        let mut arguments: Vec<(String, Json)> = Vec::new();
        let mut i: usize = 0;
        while i < n
            invariant
                i <= n,
                n == keys.len(),
                keys == skill.arguments.keys(),
                fields_view(arguments@) == arguments_json(keys.take(i as int), skill@.arguments),
                fields_integral(fields_view(arguments@)),
            decreases n - i,
        {
            let name = skill.arguments.key_at(i);
            let doc = skill.arguments.value_at(i);
            proof {
                assert(keys.take(i + 1).drop_last() =~= keys.take(i as int));
                assert(keys.take(i + 1).last() == name@);
                assert(skill@.arguments[name@] == doc@);
            }
            push_field(&mut arguments, name, text_json(doc.as_str()));
            i += 1;
        }
        proof {
            assert(keys.take(n as int) =~= keys);
        }
        push_field(&mut fields, "arguments", object_json(arguments));
    }
    object_json(fields)
}

/// An entry as a JSON document.
pub fn entry_document(entry: &HarnessEntry) -> (r: Json)
    ensures
        r@ == entry_json(entry@),
        integral(r@),
{
    let mut fields: Vec<(String, Json)> = Vec::new();
    push_field(&mut fields, "id", text_json(entry.id.as_str()));
    push_field(&mut fields, "kind", text_json(entry.kind.as_str()));
    push_field(&mut fields, "title", text_json(entry.title.as_str()));
    push_field(&mut fields, "content", text_json(entry.content.as_str()));
    if let Some(skill) = &entry.skill {
        push_field(&mut fields, "skill", skill_document(skill));
    }
    push_field(&mut fields, "source", text_json(entry.source.as_str()));
    push_field(&mut fields, "version", number_json(entry.version));
    push_field(&mut fields, "created_at_ms", number_json(entry.created_at_ms));
    push_field(&mut fields, "updated_at_ms", number_json(entry.updated_at_ms));
    object_json(fields)
}

pub fn applied_document(edit: &AppliedEdit) -> (r: Json)
    ensures
        r@ == applied_json(edit@),
        integral(r@),
{
    let mut fields: Vec<(String, Json)> = Vec::new();
    push_field(&mut fields, "index", number_json(edit.index as u64));
    push_field(&mut fields, "entry_id", text_json(edit.entry_id.as_str()));
    push_field(&mut fields, "action", text_json(edit.action.as_str()));
    if let Some(entry) = &edit.before {
        push_field(&mut fields, "before", entry_document(entry));
    }
    if let Some(entry) = &edit.after {
        push_field(&mut fields, "after", entry_document(entry));
    }
    object_json(fields)
}

pub fn rejected_document(edit: &RejectedEdit) -> (r: Json)
    ensures
        r@ == rejected_json(edit@),
        integral(r@),
{
    let mut fields: Vec<(String, Json)> = Vec::new();
    push_field(&mut fields, "index", number_json(edit.index as u64));
    if let Some(id) = &edit.entry_id {
        push_field(&mut fields, "entry_id", text_json(id.as_str()));
    }
    push_field(&mut fields, "error", text_json(edit.error.as_str()));
    object_json(fields)
}

pub fn evidence_document(evidence: &HarnessEvidenceRef) -> (r: Json)
    ensures
        r@ == evidence_json(evidence@),
        integral(r@),
{
    let mut fields: Vec<(String, Json)> = Vec::new();
    push_field(&mut fields, "kind", text_json(evidence.kind.as_str()));
    push_field(&mut fields, "reference", text_json(evidence.reference.as_str()));
    object_json(fields)
}

pub fn kind_document(kind: &RefinementEventKind) -> (r: Json)
    ensures
        r@ == kind_json(kind@),
        integral(r@),
{
    let mut fields: Vec<(String, Json)> = Vec::new();
    match kind {
        RefinementEventKind::Applied => {
            push_field(&mut fields, "type", text_json("applied"));
        },
        RefinementEventKind::Rollback { of_event_id } => {
            push_field(&mut fields, "type", text_json("rollback"));
            push_field(&mut fields, "of_event_id", text_json(of_event_id.as_str()));
        },
    }
    object_json(fields)
}

pub fn applied_documents(edits: &Vec<AppliedEdit>) -> (r: Json)
    ensures
        r@ == JsonView::List(applied_list(applied_views(edits@))),
        integral(r@),
{
    let mut items: Vec<Json> = Vec::new();
    let ghost views = applied_views(edits@);
    let mut i: usize = 0;
    while i < edits.len()
        invariant
            i <= edits@.len(),
            views == applied_views(edits@),
            list_view(items@) =~= applied_list(views).take(i as int),
            items_integral(list_view(items@)),
        decreases edits@.len() - i,
    {
        push_item(&mut items, applied_document(&edits[i]));
        i += 1;
    }
    proof {
        assert(applied_list(views).take(i as int) =~= applied_list(views));
    }
    list_json(items)
}

pub fn rejected_documents(edits: &Vec<RejectedEdit>) -> (r: Json)
    ensures
        r@ == JsonView::List(rejected_list(rejected_views(edits@))),
        integral(r@),
{
    let mut items: Vec<Json> = Vec::new();
    let ghost views = rejected_views(edits@);
    let mut i: usize = 0;
    while i < edits.len()
        invariant
            i <= edits@.len(),
            views == rejected_views(edits@),
            list_view(items@) =~= rejected_list(views).take(i as int),
            items_integral(list_view(items@)),
        decreases edits@.len() - i,
    {
        push_item(&mut items, rejected_document(&edits[i]));
        i += 1;
    }
    proof {
        assert(rejected_list(views).take(i as int) =~= rejected_list(views));
    }
    list_json(items)
}

pub fn evidence_documents(refs: &Vec<HarnessEvidenceRef>) -> (r: Json)
    ensures
        r@ == JsonView::List(evidence_list(evidence_views(refs@))),
        integral(r@),
{
    let mut items: Vec<Json> = Vec::new();
    let ghost views = evidence_views(refs@);
    let mut i: usize = 0;
    while i < refs.len()
        invariant
            i <= refs@.len(),
            views == evidence_views(refs@),
            list_view(items@) =~= evidence_list(views).take(i as int),
            items_integral(list_view(items@)),
        decreases refs@.len() - i,
    {
        push_item(&mut items, evidence_document(&refs[i]));
        i += 1;
    }
    proof {
        assert(evidence_list(views).take(i as int) =~= evidence_list(views));
    }
    list_json(items)
}

/// What an event is made of, before it has an identity.
pub struct EventDraft {
    pub scope: HarnessScope,
    pub kind: RefinementEventKind,
    pub based_on_revision: u64,
    pub summary: String,
    pub rationale: String,
    pub expected_outcome: String,
    pub applied: Vec<AppliedEdit>,
    pub rejected: Vec<RejectedEdit>,
    pub evidence: Vec<HarnessEvidenceRef>,
    pub created_at_ms: u64,
}

impl EventDraft {
    /// The event that the draft describes, with the given identity.
    pub open spec fn named(self, event_id: Seq<char>) -> EventView {
        EventView {
            schema_version: REFINEMENT_EVENT_SCHEMA_VERSION,
            event_id,
            scope: self.scope@,
            kind: self.kind@,
            based_on_revision: self.based_on_revision,
            resulting_revision: (self.based_on_revision + 1) as u64,
            summary: self.summary@,
            rationale: self.rationale@,
            expected_outcome: self.expected_outcome@,
            applied: applied_views(self.applied@),
            rejected: rejected_views(self.rejected@),
            evidence: evidence_views(self.evidence@),
            created_at_ms: self.created_at_ms,
        }
    }
}

/// The event that a description becomes once it has its identity, or why it is refused.
pub open spec fn built_event(e: EventView) -> Result<EventView, Refusal> {
    if e.based_on_revision == u64::MAX {
        Err(Refusal::RevisionOverflow)
    } else {
        let named = EventView { event_id: event_identity(e), ..e };
        match named.content_fault() {
            Some(r) => Err(r),
            None => Ok(named),
        }
    }
}

/// The identity of an event does not depend on the identity that it carries.
pub proof fn law_identity_is_of_content(e: EventView, id: Seq<char>)
    ensures
        event_identity(EventView { event_id: id, ..e }) == event_identity(e),
{
    assert(event_payload(EventView { event_id: id, ..e }) == event_payload(e));
}

/// An event that was built is valid.
pub proof fn law_built_events_are_valid(e: EventView)
    requires
        e.schema_version == REFINEMENT_EVENT_SCHEMA_VERSION,
    ensures
        built_event(e) matches Ok(built) ==> built.fault() is None,
{
    match built_event(e) {
        Ok(built) => {
            law_identity_is_of_content(e, built.event_id);
        },
        Err(_) => {},
    }
}

impl RefinementEvent {
    /// Makes an event of a draft: gives it the identity of its content and checks it.
    pub fn build(draft: EventDraft) -> (r: Result<RefinementEvent, EvolutionError>)
        ensures
            match built_event(draft.named(Seq::empty())) {
                Ok(e) => r matches Ok(event) && event@ == e && e.fault() is None && sha256_id(
                    e.event_id,
                ) && event_tame(e) && identity_reads_back(e),
                Err(e) => refusal(r) == Some(e),
            },
    {
        if draft.based_on_revision == u64::MAX {
            return Err(EvolutionError::RevisionOverflow);
        }
        let mut event = RefinementEvent {
            schema_version: REFINEMENT_EVENT_SCHEMA_VERSION,
            event_id: String::new(),
            scope: draft.scope,
            kind: draft.kind,
            based_on_revision: draft.based_on_revision,
            resulting_revision: draft.based_on_revision + 1,
            summary: draft.summary,
            rationale: draft.rationale,
            expected_outcome: draft.expected_outcome,
            applied: draft.applied,
            rejected: draft.rejected,
            evidence: draft.evidence,
            created_at_ms: draft.created_at_ms,
        };
        let ghost bare = event@;
        assert(bare == draft.named(Seq::empty()));
        event.event_id = event.compute_event_id();
        proof {
            assert(event@ == (EventView { event_id: event.event_id@, ..bare }));
            law_identity_is_of_content(bare, event.event_id@);
        }
        event.validate()?;
        Ok(event)
    }

    pub fn schema_version(&self) -> (r: u32)
        ensures
            r == self@.schema_version,
    {
        self.schema_version
    }

    pub fn event_id(&self) -> (r: &str)
        ensures
            r@ == self@.event_id,
    {
        self.event_id.as_str()
    }

    pub fn scope(&self) -> (r: &HarnessScope)
        ensures
            r@ == self@.scope,
    {
        &self.scope
    }

    pub fn kind(&self) -> (r: &RefinementEventKind)
        ensures
            r@ == self@.kind,
    {
        &self.kind
    }

    pub fn based_on_revision(&self) -> (r: u64)
        ensures
            r == self@.based_on_revision,
    {
        self.based_on_revision
    }

    pub fn resulting_revision(&self) -> (r: u64)
        ensures
            r == self@.resulting_revision,
    {
        self.resulting_revision
    }

    pub fn summary(&self) -> (r: &str)
        ensures
            r@ == self@.summary,
    {
        self.summary.as_str()
    }

    pub fn rationale(&self) -> (r: &str)
        ensures
            r@ == self@.rationale,
    {
        self.rationale.as_str()
    }

    pub fn expected_outcome(&self) -> (r: &str)
        ensures
            r@ == self@.expected_outcome,
    {
        self.expected_outcome.as_str()
    }

    pub fn applied(&self) -> (r: &Vec<AppliedEdit>)
        ensures
            applied_views(r@) == self@.applied,
    {
        &self.applied
    }

    pub fn rejected(&self) -> (r: &Vec<RejectedEdit>)
        ensures
            rejected_views(r@) == self@.rejected,
    {
        &self.rejected
    }

    pub fn evidence(&self) -> (r: &Vec<HarnessEvidenceRef>)
        ensures
            evidence_views(r@) == self@.evidence,
    {
        &self.evidence
    }

    pub fn created_at_ms(&self) -> (r: u64)
        ensures
            r == self@.created_at_ms,
    {
        self.created_at_ms
    }

    /// Everything of the event but its identity, as a JSON document.
    pub fn payload(&self) -> (r: Json)
        ensures
            r@ == event_payload(self@),
            integral(r@),
    {
        let mut fields: Vec<(String, Json)> = Vec::new();
        let scope = self.scope.to_text();
        push_field(&mut fields, "schema_version", number_json(self.schema_version as u64));
        push_field(&mut fields, "scope", text_json(scope.as_str()));
        push_field(&mut fields, "kind", kind_document(&self.kind));
        push_field(&mut fields, "based_on_revision", number_json(self.based_on_revision));
        push_field(&mut fields, "resulting_revision", number_json(self.resulting_revision));
        push_field(&mut fields, "summary", text_json(self.summary.as_str()));
        push_field(&mut fields, "rationale", text_json(self.rationale.as_str()));
        push_field(&mut fields, "expected_outcome", text_json(self.expected_outcome.as_str()));
        push_field(&mut fields, "applied", applied_documents(&self.applied));
        push_field(&mut fields, "rejected", rejected_documents(&self.rejected));
        push_field(&mut fields, "evidence", evidence_documents(&self.evidence));
        push_field(&mut fields, "created_at_ms", number_json(self.created_at_ms));
        object_json(fields)
    }

    /// The identity that the event's content has.
    pub fn compute_event_id(&self) -> (r: String)
        ensures
            r@ == event_identity(self@),
            sha256_id(r@),
            applied_fault(self@.applied) is None ==> event_tame(self@) && identity_reads_back(
                self@,
            ),
    {
        let payload = self.payload();
        let canonical = payload.canonical();
        proof {
            lemma_canonical_writable(payload@);
            if applied_fault(self@.applied) is None {
                lemma_event_tame(*self);
                lemma_identity_sound(self@);
            }
        }
        let text = canonical.write();
        let id = digest_in_domain(
            REFINEMENT_EVENT_DIGEST_DOMAIN.as_bytes(),
            text.as_str().as_bytes(),
        );
        proof {
            reveal_strlit("sha256:");
            assert(id@.subrange(0, 7) =~= "sha256:"@);
            assert forall|i: int| 0 <= i < id@.skip(7).len() implies is_hex_digit(
                #[trigger] id@.skip(7)[i],
            ) by {
                assert(id@.skip(7)[i] == id@[i + 7]);
            }
        }
        id
    }

    /// Whether no edit index is recorded twice.
    fn indexes_distinct(&self) -> (r: bool)
        requires
            self.applied@.len() + self.rejected@.len() <= MAX_REFINEMENT_EDITS,
        ensures
            r == event_indexes(self@).no_duplicates(),
    {
        let ghost all = event_indexes(self@);
        let mut seen: Vec<u32> = Vec::new();
        let total: usize = self.applied.len() + self.rejected.len();
        let mut i: usize = 0;
        while i < total
            invariant
                i <= total,
                total == self.applied@.len() + self.rejected@.len(),
                all == event_indexes(self@),
                all.len() == total,
                seen@ == all.take(i as int),
                seen@.no_duplicates(),
            decreases total - i,
        {
            let index: u32 = if i < self.applied.len() {
                self.applied[i].index
            } else {
                self.rejected[i - self.applied.len()].index
            };
            assert(index == all[i as int]);
            let mut j: usize = 0;
            while j < seen.len()
                invariant
                    j <= seen@.len(),
                    i < total,
                    all.len() == total,
                    all == event_indexes(self@),
                    seen@ == all.take(i as int),
                    index == all[i as int],
                    forall|k: int| 0 <= k < j ==> seen@[k] != index,
                decreases seen@.len() - j,
            {
                if seen[j] == index {
                    assert(all[j as int] == seen@[j as int]);
                    assert(!all.no_duplicates());
                    return false;
                }
                j += 1;
            }
            seen.push(index);
            proof {
                assert(seen@ =~= all.take(i + 1));
            }
            i += 1;
        }
        proof {
            assert(all.take(total as int) =~= all);
        }
        true
    }

    /// Checks the event and its identity.
    #[verifier::loop_isolation(false)]
    pub fn validate(&self) -> (r: Result<(), EvolutionError>)
        ensures
            refusal(r) == self@.fault(),
            r is Ok ==> sha256_id(self@.event_id) && event_tame(self@) && identity_reads_back(
                self@,
            ),
    {
        if self.schema_version != REFINEMENT_EVENT_SCHEMA_VERSION {
            let mut out = "unsupported refinement event schema ".to_owned();
            push_decimal(&mut out, self.schema_version as u64);
            return Err(EvolutionError::Invalid(out));
        }
        self.scope.validate()?;
        if self.based_on_revision == u64::MAX || self.based_on_revision + 1
            != self.resulting_revision {
            return Err(invalid("a refinement event must advance its revision by exactly one"));
        }
        validate_text(self.summary.as_str(), MAX_REFINEMENT_TEXT_BYTES, "event summary", true)?;
        validate_text(self.rationale.as_str(), MAX_REFINEMENT_TEXT_BYTES, "event rationale", true)?;
        validate_text(
            self.expected_outcome.as_str(),
            MAX_REFINEMENT_TEXT_BYTES,
            "event expected outcome",
            true,
        )?;
        if let RefinementEventKind::Rollback { of_event_id } = &self.kind {
            validate_sha256_id(of_event_id.as_str(), "rolled-back event ID")?;
        }
        assert(self@.head_fault() is None);
        if self.applied.len() == 0 && self.rejected.len() == 0 {
            return Err(invalid("a refinement event must record at least one edit"));
        }
        if self.applied.len() > MAX_REFINEMENT_EDITS || self.rejected.len() > MAX_REFINEMENT_EDITS
            - self.applied.len() {
            let mut out = "a refinement event records more than ".to_owned();
            push_decimal(&mut out, MAX_REFINEMENT_EDITS as u64);
            out.append(" edits");
            return Err(EvolutionError::Invalid(out));
        }
        if !self.indexes_distinct() {
            return Err(invalid("a refinement event records one edit index twice"));
        }
        let ghost applied = self@.applied;
        proof {
            assert(applied.skip(0) =~= applied);
        }
        let mut i: usize = 0;
        while i < self.applied.len()
            invariant
                i <= self.applied@.len(),
                applied == applied_views(self.applied@),
                applied_fault(applied) == applied_fault(applied.skip(i as int)),
            decreases self.applied@.len() - i,
        {
            proof {
                assert(applied.skip(i as int)[0] == self.applied@[i as int]@);
                assert(applied.skip(i as int).drop_first() =~= applied.skip(i + 1));
            }
            self.applied[i].validate()?;
            i += 1;
        }
        let ghost rejected = self@.rejected;
        proof {
            assert(rejected.skip(0) =~= rejected);
        }
        let mut k: usize = 0;
        while k < self.rejected.len()
            invariant
                k <= self.rejected@.len(),
                rejected == rejected_views(self.rejected@),
                applied_fault(applied) is None,
                rejected_fault(rejected) == rejected_fault(rejected.skip(k as int)),
            decreases self.rejected@.len() - k,
        {
            proof {
                assert(rejected.skip(k as int)[0] == self.rejected@[k as int]@);
                assert(rejected.skip(k as int).drop_first() =~= rejected.skip(k + 1));
            }
            self.rejected[k].validate()?;
            k += 1;
        }
        assert(self@.edits_fault() is None);
        if self.evidence.len() > MAX_HARNESS_EVIDENCE_REFS {
            let mut out = "a refinement event cites more than ".to_owned();
            push_decimal(&mut out, MAX_HARNESS_EVIDENCE_REFS as u64);
            out.append(" evidence references");
            return Err(EvolutionError::Invalid(out));
        }
        let id = self.compute_event_id();
        if !same_text(self.event_id.as_str(), id.as_str()) {
            return Err(invalid("refinement event identity does not match its contents"));
        }
        Ok(())
    }
}

} // verus!
