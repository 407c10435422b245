//! Reading entries, proposals, events and ledgers from JSON documents.

use crate::evolution::edit::{
    edit_views, optional_entry, EditView, ProposalView, RefinementAction, RefinementEdit,
    RefinementProposal,
};
use crate::evolution::entry::{
    skill_view, texts, EntryView, HarnessEntry, HarnessEntryKind, HarnessSkillContract, SkillView,
};
use crate::evolution::planner::{extract_json_object, object_outcome, NO_REFINEMENT_REPLY};
use crate::evolution::{refusal, EvolutionError, Refusal};
use crate::json::{
    fields_view, json_parsed, lemma_fields_view, lemma_list_view, list_view, name_views, shape,
    shaped, Json, JsonView,
};
use crate::text::{same_text, trim, trim_text};
use crate::text_map::TextMap;
use vstd::prelude::*;

verus! {

/// The entry kind of a name.
pub open spec fn kind_named(name: Seq<char>) -> Option<HarnessEntryKind> {
    if name == "prompt"@ {
        Some(HarnessEntryKind::Prompt)
    } else if name == "memory"@ {
        Some(HarnessEntryKind::Memory)
    } else if name == "skill"@ {
        Some(HarnessEntryKind::Skill)
    } else if name == "subagent"@ {
        Some(HarnessEntryKind::Subagent)
    } else {
        None
    }
}

/// The action of a name.
pub open spec fn action_named(name: Seq<char>) -> Option<RefinementAction> {
    if name == "create"@ {
        Some(RefinementAction::Create)
    } else if name == "update"@ {
        Some(RefinementAction::Update)
    } else if name == "delete"@ {
        Some(RefinementAction::Delete)
    } else {
        None
    }
}

fn read_kind(name: &str) -> (r: Option<HarnessEntryKind>)
    ensures
        r == kind_named(name@),
{
    if same_text(name, "prompt") {
        Some(HarnessEntryKind::Prompt)
    } else if same_text(name, "memory") {
        Some(HarnessEntryKind::Memory)
    } else if same_text(name, "skill") {
        Some(HarnessEntryKind::Skill)
    } else if same_text(name, "subagent") {
        Some(HarnessEntryKind::Subagent)
    } else {
        None
    }
}

pub fn read_action(name: &str) -> (r: Option<RefinementAction>)
    ensures
        r == action_named(name@),
{
    if same_text(name, "create") {
        Some(RefinementAction::Create)
    } else if same_text(name, "update") {
        Some(RefinementAction::Update)
    } else if same_text(name, "delete") {
        Some(RefinementAction::Delete)
    } else {
        None
    }
}

/// The arguments that the fields of an object describe.
pub open spec fn decoded_arguments(fields: Seq<(Seq<char>, JsonView)>) -> Option<
    Map<Seq<char>, Seq<char>>,
>
    decreases fields.len(),
{
    if fields.len() == 0 {
        Some(Map::empty())
    } else {
        match (decoded_arguments(fields.drop_last()), fields.last().1.text()) {
            (Some(m), Some(doc)) => Some(m.insert(fields.last().0, doc)),
            _ => None,
        }
    }
}

/// The fields of a skill contract.
pub open spec fn skill_names() -> Seq<Seq<char>> {
    seq!["invocation"@, "arguments"@]
}

/// The skill contract that a document describes, as an object or as the list of its fields.
pub open spec fn decoded_skill(j: JsonView) -> Option<SkillView> {
    match shaped(j, skill_names(), 1) {
        Some(o) => skill_in(o),
        None => None,
    }
}

/// The skill contract that the fields of an object describe.
pub open spec fn skill_in(j: JsonView) -> Option<SkillView> {
    match j.text_at("invocation"@) {
        None => None,
        Some(invocation) => match j.get("arguments"@) {
            None => Some(SkillView { invocation, arguments: Map::empty() }),
            Some(JsonView::Object(fields)) => match decoded_arguments(fields) {
                Some(arguments) => Some(SkillView { invocation, arguments }),
                None => None,
            },
            Some(_) => None,
        },
    }
}

/// The skill contract of an optional field.
pub open spec fn decoded_optional_skill(j: Option<JsonView>) -> Option<Option<SkillView>> {
    match j {
        None => Some(None),
        Some(JsonView::Null) => Some(None),
        Some(value) => match decoded_skill(value) {
            Some(skill) => Some(Some(skill)),
            None => None,
        },
    }
}

/// The fields of an entry.
pub open spec fn entry_names() -> Seq<Seq<char>> {
    seq![
        "id"@,
        "kind"@,
        "title"@,
        "content"@,
        "skill"@,
        "source"@,
        "version"@,
        "created_at_ms"@,
        "updated_at_ms"@,
    ]
}

/// The entry that a document describes, as an object or as the list of its fields.
pub open spec fn decoded_entry(j: JsonView) -> Option<EntryView> {
    match shaped(j, entry_names(), 9) {
        Some(o) => entry_in(o),
        None => None,
    }
}

/// The entry that the fields of an object describe.
pub open spec fn entry_in(j: JsonView) -> Option<EntryView> {
    match (
        j.text_at("id"@),
        j.variant_at("kind"@),
        j.text_at("title"@),
        j.text_at("content"@),
        decoded_optional_skill(j.get("skill"@)),
        j.text_at("source"@),
    ) {
        (Some(id), Some(kind), Some(title), Some(content), Some(skill), Some(source)) => match (
            kind_named(kind),
            j.unsigned_at("version"@),
            j.unsigned_at("created_at_ms"@),
            j.unsigned_at("updated_at_ms"@),
        ) {
            (Some(kind), Some(version), Some(created_at_ms), Some(updated_at_ms)) => Some(
                EntryView {
                    id,
                    kind,
                    title,
                    content,
                    skill,
                    source,
                    version,
                    created_at_ms,
                    updated_at_ms,
                },
            ),
            _ => None,
        },
        _ => None,
    }
}

/// The entry of an optional field.
pub open spec fn decoded_optional_entry(j: Option<JsonView>) -> Option<Option<EntryView>> {
    match j {
        None => Some(None),
        Some(JsonView::Null) => Some(None),
        Some(value) => match decoded_entry(value) {
            Some(entry) => Some(Some(entry)),
            None => None,
        },
    }
}

/// The fields of an edit.
pub open spec fn edit_names() -> Seq<Seq<char>> {
    seq![
        "action"@,
        "kind"@,
        "id"@,
        "title"@,
        "content"@,
        "skill"@,
        "expected_version"@,
        "reason"@,
    ]
}

/// The edit that a document describes, as an object or as the list of its fields.
pub open spec fn decoded_edit(j: JsonView) -> Option<EditView> {
    match shaped(j, edit_names(), 8) {
        Some(o) => edit_in(o),
        None => None,
    }
}

/// The edit that the fields of an object describe. An edit that is not valid is not read.
pub open spec fn edit_in(j: JsonView) -> Option<EditView> {
    match (
        j.variant_at("action"@),
        j.variant_at("kind"@),
        j.optional_text_at("id"@),
        j.optional_text_at("title"@),
        j.optional_text_at("content"@),
        decoded_optional_skill(j.get("skill"@)),
        j.optional_unsigned_at("expected_version"@),
        j.text_at("reason"@),
    ) {
        (
            Some(action),
            Some(kind),
            Some(id),
            Some(title),
            Some(content),
            Some(skill),
            Some(expected_version),
            Some(reason),
        ) => match (action_named(action), kind_named(kind)) {
            (Some(action), Some(kind)) => {
                let edit = EditView {
                    action,
                    kind,
                    id,
                    title,
                    content,
                    skill,
                    expected_version,
                    reason,
                };
                if edit.fault() is None {
                    Some(edit)
                } else {
                    None
                }
            },
            _ => None,
        },
        _ => None,
    }
}

/// The edits that a list describes.
pub open spec fn decoded_edits(items: Seq<JsonView>) -> Option<Seq<EditView>>
    decreases items.len(),
{
    if items.len() == 0 {
        Some(Seq::empty())
    } else {
        match (decoded_edits(items.drop_last()), decoded_edit(items.last())) {
            (Some(edits), Some(edit)) => Some(edits.push(edit)),
            _ => None,
        }
    }
}

/// The fields of a proposal.
pub open spec fn proposal_names() -> Seq<Seq<char>> {
    seq!["summary"@, "rationale"@, "expected_outcome"@, "edits"@]
}

/// The proposal that a document describes, as an object or as the list of its fields, its
/// bounds left aside.
pub open spec fn decoded_proposal(j: JsonView) -> Option<ProposalView> {
    match shaped(j, proposal_names(), 4) {
        Some(o) => proposal_in(o),
        None => None,
    }
}

/// The proposal that the fields of an object describe, its bounds left aside.
pub open spec fn proposal_in(j: JsonView) -> Option<ProposalView> {
    match (
        j.text_at("summary"@),
        j.text_at("rationale"@),
        j.text_at("expected_outcome"@),
        j.at("edits"@).list(),
    ) {
        (Some(summary), Some(rationale), Some(expected_outcome), Some(items)) => match decoded_edits(
            items,
        ) {
            Some(edits) => Some(ProposalView { summary, rationale, expected_outcome, edits }),
            None => None,
        },
        _ => None,
    }
}

fn read_skill(j: &Json) -> (r: Option<HarnessSkillContract>)
    ensures
        skill_view(r) == decoded_skill(j@),
{
    match j {
        Json::List(items) => {
            let names: Vec<&str> = vec!["invocation", "arguments"];
            assert(name_views(names@) =~= skill_names());
            let o = shape(items, &names, 1)?;
            read_skill_in(&o)
        },
        _ => read_skill_in(j),
    }
}

fn read_skill_in(j: &Json) -> (r: Option<HarnessSkillContract>)
    ensures
        skill_view(r) == skill_in(j@),
{
    let invocation = match j.text_at("invocation") {
        Some(text) => text,
        None => {
            return None;
        },
    };
    match j.get("arguments") {
        None => {
            let r = HarnessSkillContract { invocation, arguments: TextMap::new() };
            proof {
                assert(r@.arguments =~= Map::empty());
            }
            Some(r)
        },
        Some(Json::Object(fields)) => {
            let ghost all = fields_view(fields@);
            let mut arguments: TextMap<String> = TextMap::new();
            let mut i: usize = 0;
            proof {
                lemma_fields_view(fields@);
                assert(all.take(0) =~= Seq::empty());
                assert(texts(arguments@) =~= Map::empty());
            }
            while i < fields.len()
                invariant
                    i <= fields@.len(),
                    all == fields_view(fields@),
                    all.len() == fields@.len(),
                    forall|k: int|
                        0 <= k < fields@.len() ==> #[trigger] all[k] == (
                            fields@[k].0@,
                            fields@[k].1@,
                        ),
                    decoded_arguments(all.take(i as int)) == Some(texts(arguments@)),
                    skill_in(j@) == (match decoded_arguments(all) {
                        Some(m) => Some(SkillView { invocation: invocation@, arguments: m }),
                        None => None,
                    }),
                decreases fields@.len() - i,
            {
                proof {
                    assert(all.take(i + 1).drop_last() =~= all.take(i as int));
                    assert(all.take(i + 1).last() == all[i as int]);
                }
                match &fields[i].1 {
                    Json::Text(doc) => {
                        let ghost before = arguments@;
                        arguments.insert(fields[i].0.as_str(), doc.clone());
                        proof {
                            assert(texts(arguments@) =~= texts(before).insert(
                                fields@[i as int].0@,
                                doc@,
                            ));
                        }
                    },
                    _ => {
                        proof {
                            lemma_arguments_stop(all, i + 1);
                        }
                        return None;
                    },
                }
                i += 1;
            }
            proof {
                assert(all.take(all.len() as int) =~= all);
            }
            Some(HarnessSkillContract { invocation, arguments })
        },
        Some(_) => None,
    }
}

proof fn lemma_arguments_stop(fields: Seq<(Seq<char>, JsonView)>, n: int)
    requires
        0 <= n <= fields.len(),
        decoded_arguments(fields.take(n)) is None,
    ensures
        decoded_arguments(fields) is None,
    decreases fields.len() - n,
{
    if n == fields.len() {
        assert(fields.take(n) =~= fields);
    } else {
        assert(fields.take(n + 1).drop_last() =~= fields.take(n));
        lemma_arguments_stop(fields, n + 1);
    }
}

/// What an optional contract of an optional field says.
pub open spec fn skill_field_view(r: Option<Option<HarnessSkillContract>>) -> Option<
    Option<SkillView>,
> {
    match r {
        Some(skill) => Some(skill_view(skill)),
        None => None,
    }
}

fn read_optional_skill(j: Option<&Json>) -> (r: Option<Option<HarnessSkillContract>>)
    ensures
        skill_field_view(r) == decoded_optional_skill(
            match j {
                Some(value) => Some(value@),
                None => None,
            },
        ),
{
    match j {
        None => Some(None),
        Some(Json::Null) => Some(None),
        Some(value) => match read_skill(value) {
            Some(skill) => Some(Some(skill)),
            None => None,
        },
    }
}

/// Reads an entry.
pub fn read_entry(j: &Json) -> (r: Option<HarnessEntry>)
    ensures
        optional_entry(r) == decoded_entry(j@),
{
    match j {
        Json::List(items) => {
            let names: Vec<&str> = vec![
                "id",
                "kind",
                "title",
                "content",
                "skill",
                "source",
                "version",
                "created_at_ms",
                "updated_at_ms",
            ];
            assert(name_views(names@) =~= entry_names());
            let o = shape(items, &names, 9)?;
            read_entry_in(&o)
        },
        _ => read_entry_in(j),
    }
}

fn read_entry_in(j: &Json) -> (r: Option<HarnessEntry>)
    ensures
        optional_entry(r) == entry_in(j@),
{
    let id = j.text_at("id")?;
    let kind_name = j.variant_at("kind")?;
    let title = j.text_at("title")?;
    let content = j.text_at("content")?;
    let skill = read_optional_skill(j.get("skill"))?;
    let source = j.text_at("source")?;
    let kind = read_kind(kind_name.as_str())?;
    let version: u64 = j.unsigned_at("version")?;
    let created_at_ms: u64 = j.unsigned_at("created_at_ms")?;
    let updated_at_ms: u64 = j.unsigned_at("updated_at_ms")?;
    Some(
        HarnessEntry {
            id,
            kind,
            title,
            content,
            skill,
            source,
            version,
            created_at_ms,
            updated_at_ms,
        },
    )
}

/// What an optional edit says.
pub open spec fn optional_edit(r: Option<RefinementEdit>) -> Option<EditView> {
    match r {
        Some(edit) => Some(edit@),
        None => None,
    }
}

/// Reads an edit and checks it.
pub fn read_edit(j: &Json) -> (r: Option<RefinementEdit>)
    ensures
        optional_edit(r) == decoded_edit(j@),
{
    match j {
        Json::List(items) => {
            let names: Vec<&str> = vec![
                "action",
                "kind",
                "id",
                "title",
                "content",
                "skill",
                "expected_version",
                "reason",
            ];
            assert(name_views(names@) =~= edit_names());
            let o = shape(items, &names, 8)?;
            read_edit_in(&o)
        },
        _ => read_edit_in(j),
    }
}

fn read_edit_in(j: &Json) -> (r: Option<RefinementEdit>)
    ensures
        optional_edit(r) == edit_in(j@),
{
    let action_name = j.variant_at("action")?;
    let kind_name = j.variant_at("kind")?;
    let id = j.optional_text_at("id")?;
    let title = j.optional_text_at("title")?;
    let content = j.optional_text_at("content")?;
    let skill = read_optional_skill(j.get("skill"))?;
    let expected_version = j.optional_unsigned_at("expected_version")?;
    let reason = j.text_at("reason")?;
    let action = read_action(action_name.as_str())?;
    let kind = read_kind(kind_name.as_str())?;
    let edit = RefinementEdit { action, kind, id, title, content, skill, expected_version, reason };
    match edit.validate() {
        Ok(()) => Some(edit),
        Err(_) => None,
    }
}

proof fn lemma_edits_stop(items: Seq<JsonView>, n: int)
    requires
        0 <= n <= items.len(),
        decoded_edits(items.take(n)) is None,
    ensures
        decoded_edits(items) is None,
    decreases items.len() - n,
{
    if n == items.len() {
        assert(items.take(n) =~= items);
    } else {
        assert(items.take(n + 1).drop_last() =~= items.take(n));
        lemma_edits_stop(items, n + 1);
    }
}

fn read_edits(items: &Vec<Json>) -> (r: Option<Vec<RefinementEdit>>)
    ensures
        match r {
            Some(edits) => decoded_edits(list_view(items@)) == Some(edit_views(edits@)),
            None => decoded_edits(list_view(items@)) is None,
        },
{
    let ghost all = list_view(items@);
    let mut edits: Vec<RefinementEdit> = Vec::new();
    let mut i: usize = 0;
    proof {
        lemma_list_view(items@);
        assert(all.take(0) =~= Seq::empty());
        assert(edit_views(edits@) =~= Seq::empty());
    }
    while i < items.len()
        invariant
            i <= items@.len(),
            all == list_view(items@),
            all.len() == items@.len(),
            forall|k: int| 0 <= k < items@.len() ==> #[trigger] all[k] == items@[k]@,
            decoded_edits(all.take(i as int)) == Some(edit_views(edits@)),
        decreases items@.len() - i,
    {
        let ghost before = edit_views(edits@);
        proof {
            assert(all.take(i + 1).drop_last() =~= all.take(i as int));
            assert(all.take(i + 1).last() == items@[i as int]@);
        }
        match read_edit(&items[i]) {
            Some(edit) => {
                edits.push(edit);
                proof {
                    assert(edit_views(edits@) =~= before.push(edit@));
                }
            },
            None => {
                proof {
                    lemma_edits_stop(all, i + 1);
                }
                return None;
            },
        }
        i += 1;
    }
    proof {
        assert(all.take(all.len() as int) =~= all);
    }
    Some(edits)
}

/// What reading a planner's JSON object gives.
pub open spec fn reply_proposal(text: Seq<char>) -> Result<ProposalView, Refusal> {
    let unreadable = Refusal::Serialization("planner reply is not a refinement proposal"@);
    match json_parsed(text) {
        None => Err(unreadable),
        Some(j) => match decoded_proposal(j) {
            None => Err(unreadable),
            Some(proposal) => match proposal.fault() {
                Some(e) => Err(e),
                None => Ok(proposal),
            },
        },
    }
}

/// What reading a planner's reply gives.
pub open spec fn model_reply(reply: Seq<char>) -> Result<ProposalView, Refusal> {
    match object_outcome(reply) {
        Err(e) => Err(e),
        Ok(text) => reply_proposal(text),
    }
}

/// Reads a proposal from a document.
pub fn read_proposal(j: &Json) -> (r: Result<RefinementProposal, EvolutionError>)
    ensures
        match decoded_proposal(j@) {
            None => refusal(r) == Some(
                Refusal::Serialization("planner reply is not a refinement proposal"@),
            ),
            Some(proposal) => match r {
                Ok(p) => p@ == proposal && proposal.fault() is None,
                Err(e) => proposal.fault() == Some(e@),
            },
        },
{
    match j {
        Json::List(items) => {
            let names: Vec<&str> = vec!["summary", "rationale", "expected_outcome", "edits"];
            assert(name_views(names@) =~= proposal_names());
            match shape(items, &names, 4) {
                Some(o) => read_proposal_in(&o),
                None => Err(unreadable_reply()),
            }
        },
        _ => read_proposal_in(j),
    }
}

fn read_proposal_in(j: &Json) -> (r: Result<RefinementProposal, EvolutionError>)
    ensures
        match proposal_in(j@) {
            None => refusal(r) == Some(
                Refusal::Serialization("planner reply is not a refinement proposal"@),
            ),
            Some(proposal) => match r {
                Ok(p) => p@ == proposal && proposal.fault() is None,
                Err(e) => proposal.fault() == Some(e@),
            },
        },
{
    let items = match j.get("edits") {
        Some(Json::List(items)) => items,
        _ => {
            return Err(unreadable_reply());
        },
    };
    let edits = match read_edits(items) {
        Some(edits) => edits,
        None => {
            return Err(unreadable_reply());
        },
    };
    match (j.text_at("summary"), j.text_at("rationale"), j.text_at("expected_outcome")) {
        (Some(summary), Some(rationale), Some(expected_outcome)) => {
            let proposal = RefinementProposal { summary, rationale, expected_outcome, edits };
            proposal.validate()?;
            Ok(proposal)
        },
        _ => Err(unreadable_reply()),
    }
}

fn unreadable_reply() -> (r: EvolutionError)
    ensures
        r@ == Refusal::Serialization("planner reply is not a refinement proposal"@),
{
    EvolutionError::Serialization("planner reply is not a refinement proposal".to_owned())
}

impl RefinementProposal {
    /// Reads a planner's reply: one JSON object, bare or fenced. Anything else, a cut-off object
    /// among it, is refused.
    pub fn from_model_reply(reply: &str) -> (r: Result<RefinementProposal, EvolutionError>)
        ensures
            match model_reply(reply@) {
                Ok(proposal) => r matches Ok(p) && p@ == proposal,
                Err(e) => refusal(r) == Some(e),
            },
    {
        let body = extract_json_object(reply)?;
        match Json::parse(body.as_str()) {
            Some(j) => read_proposal(&j),
            None => Err(unreadable_reply()),
        }
    }
}

/// Tells the planner's explicit verdict from a proposal and from anything malformed.
pub fn parse_planner_reply(reply: &str) -> (r: Result<Option<RefinementProposal>, EvolutionError>)
    ensures
        if trim(reply@) == NO_REFINEMENT_REPLY@ {
            r matches Ok(None)
        } else {
            match model_reply(reply@) {
                Ok(proposal) => r matches Ok(Some(p)) && p@ == proposal,
                Err(e) => refusal(r) == Some(e),
            }
        },
{
    let trimmed = trim_text(reply);
    if same_text(trimmed.as_str(), NO_REFINEMENT_REPLY) {
        return Ok(None);
    }
    let proposal = RefinementProposal::from_model_reply(reply)?;
    Ok(Some(proposal))
}

/// The names of kinds and actions: each kind and each action has one, and no other name is read.
pub proof fn law_kinds_and_actions_have_one_name_each(name: Seq<char>)
    ensures
        kind_named(name) == Some(HarnessEntryKind::Prompt) <==> name == "prompt"@,
        kind_named(name) == Some(HarnessEntryKind::Memory) <==> name == "memory"@,
        kind_named(name) == Some(HarnessEntryKind::Skill) <==> name == "skill"@,
        kind_named(name) == Some(HarnessEntryKind::Subagent) <==> name == "subagent"@,
        action_named(name) == Some(RefinementAction::Create) <==> name == "create"@,
        action_named(name) == Some(RefinementAction::Update) <==> name == "update"@,
        action_named(name) == Some(RefinementAction::Delete) <==> name == "delete"@,
{
    reveal_strlit("prompt");
    reveal_strlit("memory");
    reveal_strlit("skill");
    reveal_strlit("subagent");
    reveal_strlit("create");
    reveal_strlit("update");
    reveal_strlit("delete");
    assert("prompt"@[0] == 'p' && "memory"@[0] == 'm' && "skill"@.len() == 5 && "subagent"@.len()
        == 8 && "prompt"@.len() == 6 && "memory"@.len() == 6);
    assert("create"@[0] == 'c' && "update"@[0] == 'u' && "delete"@[0] == 'd');
}

/// An edit that is read of an object is in order and says what the object's fields say: its action
/// and kind by name, its texts and its version where they are there, and its reason.
pub proof fn law_edits_say_what_their_fields_say(j: JsonView)
    ensures
        j is Object ==> (decoded_edit(j) matches Some(edit) ==> {
            &&& edit.fault() is None
            &&& j.variant_at("action"@) is Some
            &&& action_named(j.variant_at("action"@)->Some_0) == Some(edit.action)
            &&& j.variant_at("kind"@) is Some
            &&& kind_named(j.variant_at("kind"@)->Some_0) == Some(edit.kind)
            &&& j.optional_text_at("id"@) == Some(edit.id)
            &&& j.optional_text_at("title"@) == Some(edit.title)
            &&& j.optional_text_at("content"@) == Some(edit.content)
            &&& decoded_optional_skill(j.get("skill"@)) == Some(edit.skill)
            &&& j.optional_unsigned_at("expected_version"@) == Some(edit.expected_version)
            &&& j.text_at("reason"@) == Some(edit.reason)
        }),
{
}

proof fn lemma_edits_decoded(items: Seq<JsonView>)
    ensures
        decoded_edits(items) matches Some(edits) ==> edits.len() == items.len() && forall|i: int|
            0 <= i < items.len() ==> decoded_edit(#[trigger] items[i]) == Some(edits[i]),
    decreases items.len(),
{
    if items.len() > 0 {
        let shorter = items.drop_last();
        lemma_edits_decoded(shorter);
        if decoded_edits(items) is Some {
            let edits = decoded_edits(items)->Some_0;
            assert forall|i: int| 0 <= i < items.len() implies decoded_edit(#[trigger] items[i])
                == Some(edits[i]) by {
                if i < items.len() - 1 {
                    assert(shorter[i] == items[i]);
                }
            }
        }
    }
}

/// A proposal that is read of an object carries the object's three texts and an edit for every item
/// of its list, in order.
pub proof fn law_proposals_say_what_their_fields_say(j: JsonView)
    ensures
        j is Object ==> (decoded_proposal(j) matches Some(proposal) ==> {
            let items = j.at("edits"@).list();
            &&& j.text_at("summary"@) == Some(proposal.summary)
            &&& j.text_at("rationale"@) == Some(proposal.rationale)
            &&& j.text_at("expected_outcome"@) == Some(proposal.expected_outcome)
            &&& items is Some
            &&& proposal.edits.len() == items->Some_0.len()
            &&& forall|i: int|
                0 <= i < proposal.edits.len() ==> decoded_edit(items->Some_0[i]) == Some(
                    #[trigger] proposal.edits[i],
                )
        }),
{
    let items = j.at("edits"@).list();
    if items is Some {
        lemma_edits_decoded(items->Some_0);
    }
}

/// A planner's reply is a proposal exactly where the object in it is a document that reads as one
/// and the proposal is in order; what is read is that proposal.
pub proof fn law_replies_are_read_as_proposals(reply: Seq<char>)
    ensures
        model_reply(reply) matches Ok(proposal) ==> {
            let text = object_outcome(reply);
            &&& text is Ok
            &&& json_parsed(text->Ok_0) is Some
            &&& decoded_proposal(json_parsed(text->Ok_0)->Some_0) == Some(proposal)
            &&& proposal.fault() is None
        },
        ({
            let text = object_outcome(reply);
            text is Ok && json_parsed(text->Ok_0) is Some && (decoded_proposal(
                json_parsed(text->Ok_0)->Some_0,
            ) matches Some(proposal) && proposal.fault() is None) ==> model_reply(reply) is Ok
        }),
{
}

} // verus!
