//! Refinement edits, the proposals that carry them, and what one edit does to a ledger.

use crate::evolution::entry::{
    derive_entry_id, derived_id, duplicate_skill, entry_id_fault, saturated, skill_view,
    validate_entry_id, EntryView, HarnessEntry, HarnessEntryKind, HarnessSkillContract, SkillView,
};
use crate::evolution::{
    first_of, invalid, joined3, refusal, text_fault, validate_text, EvolutionError, Refusal,
    MAX_HARNESS_ENTRIES_PER_SCOPE, MAX_HARNESS_SCOPE_CONTENT_BYTES, MAX_REFINEMENT_EDITS,
    MAX_REFINEMENT_TEXT_BYTES,
};
use crate::text::{as_optional, decimal, option_view, optional_view, push_decimal};
use crate::text_map::{sorted_keys, TextMap};
use vstd::prelude::*;

verus! {

/// What an edit does to its entry.
#[derive(Clone, Copy, Debug, PartialEq, Eq, PartialOrd, Ord, Hash, Structural)]
pub enum RefinementAction {
    Create,
    Update,
    Delete,
}

impl RefinementAction {
    /// The name of the action.
    pub open spec fn name(self) -> Seq<char> {
        match self {
            RefinementAction::Create => "create"@,
            RefinementAction::Update => "update"@,
            RefinementAction::Delete => "delete"@,
        }
    }

    /// The action that undoes this one.
    pub open spec fn inverse(self) -> RefinementAction {
        match self {
            RefinementAction::Create => RefinementAction::Delete,
            RefinementAction::Update => RefinementAction::Update,
            RefinementAction::Delete => RefinementAction::Create,
        }
    }

    /// The name of the action.
    pub fn as_str(self) -> (r: &'static str)
        ensures
            r@ == self.name(),
    {
        match self {
            RefinementAction::Create => "create",
            RefinementAction::Update => "update",
            RefinementAction::Delete => "delete",
        }
    }

    /// The action that undoes this one.
    pub fn inverted(self) -> (r: RefinementAction)
        ensures
            r == self.inverse(),
    {
        match self {
            RefinementAction::Create => RefinementAction::Delete,
            RefinementAction::Update => RefinementAction::Update,
            RefinementAction::Delete => RefinementAction::Create,
        }
    }
}

/// One structured edit of a proposal.
#[derive(Debug, PartialEq, Eq)]
pub struct RefinementEdit {
    pub action: RefinementAction,
    pub kind: HarnessEntryKind,
    pub id: Option<String>,
    pub title: Option<String>,
    pub content: Option<String>,
    pub skill: Option<HarnessSkillContract>,
    /// The entry version that the edit was planned against.
    pub expected_version: Option<u64>,
    pub reason: String,
}

/// What a [`RefinementEdit`] says.
pub struct EditView {
    pub action: RefinementAction,
    pub kind: HarnessEntryKind,
    pub id: Option<Seq<char>>,
    pub title: Option<Seq<char>>,
    pub content: Option<Seq<char>>,
    pub skill: Option<SkillView>,
    pub expected_version: Option<u64>,
    pub reason: Seq<char>,
}

impl View for RefinementEdit {
    type V = EditView;

    open spec fn view(&self) -> EditView {
        EditView {
            action: self.action,
            kind: self.kind,
            id: option_view(self.id),
            title: option_view(self.title),
            content: option_view(self.content),
            skill: skill_view(self.skill),
            expected_version: self.expected_version,
            reason: self.reason@,
        }
    }
}

impl EditView {
    /// What is wrong with the shape of the edit, for its action.
    pub open spec fn shape_fault(self) -> Option<Refusal> {
        match self.action {
            RefinementAction::Create => if self.title is None || self.content is None {
                Some(Refusal::Invalid("a create edit requires a title and content"@))
            } else {
                None
            },
            RefinementAction::Update => if self.id is None {
                Some(Refusal::Invalid("an update edit requires an entry ID"@))
            } else if self.title is None && self.content is None && self.skill is None {
                Some(Refusal::Invalid("an update edit must change at least one field"@))
            } else {
                None
            },
            RefinementAction::Delete => if self.id is None {
                Some(Refusal::Invalid("a delete edit requires an entry ID"@))
            } else if self.title is Some || self.content is Some || self.skill is Some {
                Some(Refusal::Invalid("a delete edit must not carry replacement content"@))
            } else {
                None
            },
        }
    }

    /// What is wrong with the edit.
    pub open spec fn fault(self) -> Option<Refusal> {
        first_of(
            text_fault(self.reason, MAX_REFINEMENT_TEXT_BYTES, "edit reason"@, true),
            first_of(
                match self.id {
                    Some(id) => entry_id_fault(id),
                    None => None,
                },
                self.shape_fault(),
            ),
        )
    }

    /// The entry that the edit is about.
    pub open spec fn target(self) -> Result<Seq<char>, Refusal> {
        match self.id {
            Some(id) => Ok(id),
            None => match self.title {
                Some(title) => derived_id(title),
                None => Err(Refusal::Invalid("an edit names no entry"@)),
            },
        }
    }
}

impl RefinementEdit {
    pub fn create(
        kind: HarnessEntryKind,
        title: &str,
        content: &str,
        reason: &str,
    ) -> (r: RefinementEdit)
        ensures
            r@ == (EditView {
                action: RefinementAction::Create,
                kind,
                id: None,
                title: Some(title@),
                content: Some(content@),
                skill: None,
                expected_version: None,
                reason: reason@,
            }),
    {
        RefinementEdit {
            action: RefinementAction::Create,
            kind,
            id: None,
            title: Some(title.to_owned()),
            content: Some(content.to_owned()),
            skill: None,
            expected_version: None,
            reason: reason.to_owned(),
        }
    }

    pub fn update(kind: HarnessEntryKind, id: &str, reason: &str) -> (r: RefinementEdit)
        ensures
            r@ == (EditView {
                action: RefinementAction::Update,
                kind,
                id: Some(id@),
                title: None,
                content: None,
                skill: None,
                expected_version: None,
                reason: reason@,
            }),
    {
        RefinementEdit {
            action: RefinementAction::Update,
            kind,
            id: Some(id.to_owned()),
            title: None,
            content: None,
            skill: None,
            expected_version: None,
            reason: reason.to_owned(),
        }
    }

    pub fn delete(kind: HarnessEntryKind, id: &str, reason: &str) -> (r: RefinementEdit)
        ensures
            r@ == (EditView {
                action: RefinementAction::Delete,
                kind,
                id: Some(id@),
                title: None,
                content: None,
                skill: None,
                expected_version: None,
                reason: reason@,
            }),
    {
        RefinementEdit {
            action: RefinementAction::Delete,
            kind,
            id: Some(id.to_owned()),
            title: None,
            content: None,
            skill: None,
            expected_version: None,
            reason: reason.to_owned(),
        }
    }

    pub fn with_id(self, id: &str) -> (r: RefinementEdit)
        ensures
            r@ == (EditView { id: Some(id@), ..self@ }),
    {
        RefinementEdit { id: Some(id.to_owned()), ..self }
    }

    pub fn with_title(self, title: &str) -> (r: RefinementEdit)
        ensures
            r@ == (EditView { title: Some(title@), ..self@ }),
    {
        RefinementEdit { title: Some(title.to_owned()), ..self }
    }

    pub fn with_content(self, content: &str) -> (r: RefinementEdit)
        ensures
            r@ == (EditView { content: Some(content@), ..self@ }),
    {
        RefinementEdit { content: Some(content.to_owned()), ..self }
    }

    pub fn with_skill(self, skill: HarnessSkillContract) -> (r: RefinementEdit)
        ensures
            r@ == (EditView { skill: Some(skill@), ..self@ }),
    {
        RefinementEdit { skill: Some(skill), ..self }
    }

    pub fn with_expected_version(self, version: u64) -> (r: RefinementEdit)
        ensures
            r@ == (EditView { expected_version: Some(version), ..self@ }),
    {
        RefinementEdit { expected_version: Some(version), ..self }
    }

    pub fn action(&self) -> (r: RefinementAction)
        ensures
            r == self@.action,
    {
        self.action
    }

    pub fn kind(&self) -> (r: HarnessEntryKind)
        ensures
            r == self@.kind,
    {
        self.kind
    }

    pub fn id(&self) -> (r: Option<&str>)
        ensures
            optional_view(r) == self@.id,
    {
        as_optional(&self.id)
    }

    pub fn reason(&self) -> (r: &str)
        ensures
            r@ == self@.reason,
    {
        self.reason.as_str()
    }

    /// Checks the edit.
    pub fn validate(&self) -> (r: Result<(), EvolutionError>)
        ensures
            refusal(r) == self@.fault(),
    {
        validate_text(self.reason.as_str(), MAX_REFINEMENT_TEXT_BYTES, "edit reason", true)?;
        if let Some(id) = &self.id {
            validate_entry_id(id.as_str())?;
        }
        match self.action {
            RefinementAction::Create => {
                if self.title.is_none() || self.content.is_none() {
                    return Err(invalid("a create edit requires a title and content"));
                }
            },
            RefinementAction::Update => {
                if self.id.is_none() {
                    return Err(invalid("an update edit requires an entry ID"));
                }
                if self.title.is_none() && self.content.is_none() && self.skill.is_none() {
                    return Err(invalid("an update edit must change at least one field"));
                }
            },
            RefinementAction::Delete => {
                if self.id.is_none() {
                    return Err(invalid("a delete edit requires an entry ID"));
                }
                if self.title.is_some() || self.content.is_some() || self.skill.is_some() {
                    return Err(invalid("a delete edit must not carry replacement content"));
                }
            },
        }
        Ok(())
    }
}

/// A refinement plan against one scope. It changes nothing until a ledger applies it.
#[derive(Debug, PartialEq, Eq)]
pub struct RefinementProposal {
    pub summary: String,
    pub rationale: String,
    pub expected_outcome: String,
    pub edits: Vec<RefinementEdit>,
}

/// What a [`RefinementProposal`] says.
pub struct ProposalView {
    pub summary: Seq<char>,
    pub rationale: Seq<char>,
    pub expected_outcome: Seq<char>,
    pub edits: Seq<EditView>,
}

/// What each edit says.
pub open spec fn edit_views(edits: Seq<RefinementEdit>) -> Seq<EditView> {
    Seq::new(edits.len(), |i: int| edits[i]@)
}

impl View for RefinementProposal {
    type V = ProposalView;

    open spec fn view(&self) -> ProposalView {
        ProposalView {
            summary: self.summary@,
            rationale: self.rationale@,
            expected_outcome: self.expected_outcome@,
            edits: edit_views(self.edits@),
        }
    }
}

/// What is wrong with the first faulty edit.
pub open spec fn edits_fault(edits: Seq<EditView>) -> Option<Refusal>
    decreases edits.len(),
{
    if edits.len() == 0 {
        None
    } else {
        first_of(edits[0].fault(), edits_fault(edits.drop_first()))
    }
}

impl ProposalView {
    /// What is wrong with the proposal.
    pub open spec fn fault(self) -> Option<Refusal> {
        first_of(
            text_fault(self.summary, MAX_REFINEMENT_TEXT_BYTES, "proposal summary"@, true),
            first_of(
                text_fault(self.rationale, MAX_REFINEMENT_TEXT_BYTES, "proposal rationale"@, true),
                first_of(
                    text_fault(
                        self.expected_outcome,
                        MAX_REFINEMENT_TEXT_BYTES,
                        "proposal expected outcome"@,
                        true,
                    ),
                    if self.edits.len() == 0 || self.edits.len() > MAX_REFINEMENT_EDITS {
                        Some(
                            Refusal::Invalid(
                                "a proposal must contain 1..="@ + decimal(
                                    MAX_REFINEMENT_EDITS as nat,
                                ) + " edits"@,
                            ),
                        )
                    } else {
                        edits_fault(self.edits)
                    },
                ),
            ),
        )
    }
}

impl RefinementProposal {
    pub fn new(
        summary: &str,
        rationale: &str,
        expected_outcome: &str,
        edits: Vec<RefinementEdit>,
    ) -> (r: Result<RefinementProposal, EvolutionError>)
        ensures
            ({
                let made = ProposalView {
                    summary: summary@,
                    rationale: rationale@,
                    expected_outcome: expected_outcome@,
                    edits: edit_views(edits@),
                };
                match r {
                    Ok(p) => p@ == made && made.fault() is None,
                    Err(e) => made.fault() == Some(e@),
                }
            }),
    {
        let proposal = RefinementProposal {
            summary: summary.to_owned(),
            rationale: rationale.to_owned(),
            expected_outcome: expected_outcome.to_owned(),
            edits,
        };
        proposal.validate()?;
        Ok(proposal)
    }

    pub fn summary(&self) -> (r: &str)
        ensures
            r@ == self@.summary,
    {
        self.summary.as_str()
    }

    pub fn rationale(&self) -> (r: &str)
        ensures
            r@ == self@.rationale,
    {
        self.rationale.as_str()
    }

    pub fn expected_outcome(&self) -> (r: &str)
        ensures
            r@ == self@.expected_outcome,
    {
        self.expected_outcome.as_str()
    }

    pub fn edits(&self) -> (r: &Vec<RefinementEdit>)
        ensures
            edit_views(r@) == self@.edits,
    {
        &self.edits
    }

    /// Checks the proposal and every edit of it.
    #[verifier::loop_isolation(false)]
    pub fn validate(&self) -> (r: Result<(), EvolutionError>)
        ensures
            refusal(r) == self@.fault(),
    {
        validate_text(self.summary.as_str(), MAX_REFINEMENT_TEXT_BYTES, "proposal summary", true)?;
        validate_text(
            self.rationale.as_str(),
            MAX_REFINEMENT_TEXT_BYTES,
            "proposal rationale",
            true,
        )?;
        validate_text(
            self.expected_outcome.as_str(),
            MAX_REFINEMENT_TEXT_BYTES,
            "proposal expected outcome",
            true,
        )?;
        if self.edits.len() == 0 || self.edits.len() > MAX_REFINEMENT_EDITS {
            let mut out = "a proposal must contain 1..=".to_owned();
            push_decimal(&mut out, MAX_REFINEMENT_EDITS as u64);
            out.append(" edits");
            return Err(EvolutionError::Invalid(out));
        }
        let ghost all = self@.edits;
        proof {
            assert(all.skip(0) =~= all);
        }
        let mut i: usize = 0;
        while i < self.edits.len()
            invariant
                i <= self.edits@.len(),
                all == edit_views(self.edits@),
                edits_fault(all) == edits_fault(all.skip(i as int)),
            decreases self.edits@.len() - i,
        {
            proof {
                assert(all.skip(i as int)[0] == self.edits@[i as int]@);
                assert(all.skip(i as int).drop_first() =~= all.skip(i + 1));
            }
            self.edits[i].validate()?;
            i += 1;
        }
        Ok(())
    }
}

/// What the entries of a ledger say.
pub open spec fn entry_views(m: Map<Seq<char>, HarnessEntry>) -> Map<Seq<char>, EntryView> {
    m.map_values(|e: HarnessEntry| e@)
}

/// The size of the text of the entries under `keys`.
pub open spec fn keyed_bytes(keys: Seq<Seq<char>>, entries: Map<Seq<char>, EntryView>) -> nat
    decreases keys.len(),
{
    if keys.len() == 0 {
        0
    } else {
        keyed_bytes(keys.drop_last(), entries) + entries[keys.last()].text_bytes()
    }
}

/// The size of a ledger's text.
pub open spec fn total_bytes(entries: Map<Seq<char>, EntryView>) -> nat {
    keyed_bytes(sorted_keys(entries.dom()), entries)
}

/// Computes the size of a ledger's text, as far as a machine number tells it.
pub fn text_total(entries: &TextMap<HarnessEntry>) -> (r: usize)
    ensures
        r == saturated(total_bytes(entry_views(entries@))),
{
    let n: usize = entries.len();
    let ghost keys = entries.keys();
    let ghost views = entry_views(entries@);
    proof {
        assert(views.dom() =~= entries@.dom());
        assert(keys.take(0) =~= Seq::empty());
    }
    let mut total: usize = 0;
    let mut i: usize = 0;
    while i < n
        invariant
            i <= n,
            n == keys.len(),
            keys == entries.keys(),
            views == entry_views(entries@),
            total == saturated(keyed_bytes(keys.take(i as int), views)),
        decreases n - i,
    {
        let entry = entries.value_at(i);
        proof {
            assert(keys.take(i + 1).drop_last() =~= keys.take(i as int));
            assert(keys.take(i + 1).last() == keys[i as int]);
            assert(views[keys[i as int]] == entry@);
        }
        total = total.saturating_add(entry.text_bytes());
        i += 1;
    }
    proof {
        assert(keys.take(n as int) =~= keys);
    }
    total
}

/// What a ledger's budgets say against these entries.
pub open spec fn budget_fault(entries: Map<Seq<char>, EntryView>) -> Option<Refusal> {
    if entries.dom().len() > MAX_HARNESS_ENTRIES_PER_SCOPE {
        Some(
            Refusal::Invalid(
                "the scope would exceed "@ + decimal(MAX_HARNESS_ENTRIES_PER_SCOPE as nat)
                    + " entries"@,
            ),
        )
    } else if total_bytes(entries) > MAX_HARNESS_SCOPE_CONTENT_BYTES {
        Some(
            Refusal::Invalid(
                "the scope's entry text would exceed "@ + decimal(
                    MAX_HARNESS_SCOPE_CONTENT_BYTES as nat,
                ) + " bytes"@,
            ),
        )
    } else {
        None
    }
}

/// Checks a ledger's budgets.
pub fn check_budgets(entries: &TextMap<HarnessEntry>) -> (r: Result<(), EvolutionError>)
    ensures
        refusal(r) == budget_fault(entry_views(entries@)),
{
    proof {
        assert(entry_views(entries@).dom() =~= entries@.dom());
    }
    if entries.len() > MAX_HARNESS_ENTRIES_PER_SCOPE {
        let mut out = "the scope would exceed ".to_owned();
        push_decimal(&mut out, MAX_HARNESS_ENTRIES_PER_SCOPE as u64);
        out.append(" entries");
        return Err(EvolutionError::Invalid(out));
    }
    if text_total(entries) > MAX_HARNESS_SCOPE_CONTENT_BYTES {
        let mut out = "the scope's entry text would exceed ".to_owned();
        push_decimal(&mut out, MAX_HARNESS_SCOPE_CONTENT_BYTES as u64);
        out.append(" bytes");
        return Err(EvolutionError::Invalid(out));
    }
    Ok(())
}

/// What speaks against an edit of an existing entry.
pub open spec fn precondition_fault(edit: EditView, existing: EntryView) -> Option<Refusal> {
    if existing.kind != edit.kind {
        Some(
            Refusal::Invalid(
                "entry '"@ + existing.id + "' is a "@ + existing.kind.name() + " entry, not a "@
                    + edit.kind.name() + " entry"@,
            ),
        )
    } else {
        match edit.expected_version {
            Some(expected) => if expected != existing.version {
                Some(
                    Refusal::Invalid(
                        "entry '"@ + existing.id
                            + "' changed during refinement planning: expected version "@ + decimal(
                            expected as nat,
                        ) + ", actual "@ + decimal(existing.version as nat),
                    ),
                )
            } else {
                None
            },
            None => None,
        }
    }
}

/// Checks an edit against the entry that it finds.
pub fn check_edit_preconditions(
    edit: &RefinementEdit,
    existing: &HarnessEntry,
) -> (r: Result<(), EvolutionError>)
    ensures
        refusal(r) == precondition_fault(edit@, existing@),
{
    if existing.kind != edit.kind {
        let mut out = joined3("entry '", existing.id.as_str(), "' is a ");
        out.append(existing.kind.as_str());
        out.append(" entry, not a ");
        out.append(edit.kind.as_str());
        out.append(" entry");
        return Err(EvolutionError::Invalid(out));
    }
    if let Some(expected) = edit.expected_version {
        if expected != existing.version {
            let mut out = joined3(
                "entry '",
                existing.id.as_str(),
                "' changed during refinement planning: expected version ",
            );
            push_decimal(&mut out, expected);
            out.append(", actual ");
            push_decimal(&mut out, existing.version);
            return Err(EvolutionError::Invalid(out));
        }
    }
    Ok(())
}

/// What one edit does: the entry it is about, before and after.
pub struct EditEffect {
    pub id: Seq<char>,
    pub before: Option<EntryView>,
    pub after: Option<EntryView>,
}

/// The entries after an effect.
pub open spec fn with_effect(
    entries: Map<Seq<char>, EntryView>,
    id: Seq<char>,
    after: Option<EntryView>,
) -> Map<Seq<char>, EntryView> {
    match after {
        Some(entry) => entries.insert(id, entry),
        None => entries.remove(id),
    }
}

/// The entry that a create edit makes.
pub open spec fn created_entry(
    edit: EditView,
    id: Seq<char>,
    source: Seq<char>,
    now_ms: u64,
) -> EntryView {
    EntryView {
        id,
        kind: edit.kind,
        title: edit.title->0,
        content: edit.content->0,
        skill: edit.skill,
        source,
        version: 1,
        created_at_ms: now_ms,
        updated_at_ms: now_ms,
    }
}

/// The entry that an update edit makes of an existing one.
pub open spec fn updated_entry(
    edit: EditView,
    existing: EntryView,
    source: Seq<char>,
    now_ms: u64,
) -> EntryView {
    EntryView {
        title: match edit.title {
            Some(title) => title,
            None => existing.title,
        },
        content: match edit.content {
            Some(content) => content,
            None => existing.content,
        },
        skill: match edit.skill {
            Some(skill) => Some(skill),
            None => existing.skill,
        },
        source,
        version: (existing.version + 1) as u64,
        updated_at_ms: now_ms,
        ..existing
    }
}

/// The effect that a changed entry has, when the entry and the budgets allow it.
pub open spec fn settled_effect(
    entries: Map<Seq<char>, EntryView>,
    id: Seq<char>,
    before: Option<EntryView>,
    after: EntryView,
) -> Result<EditEffect, Refusal> {
    match first_of(after.fault(), budget_fault(entries.insert(id, after))) {
        Some(e) => Err(e),
        None => Ok(EditEffect { id, before, after: Some(after) }),
    }
}

/// What one edit does to the entries of a ledger, or why it is refused.
pub open spec fn edit_effect(
    entries: Map<Seq<char>, EntryView>,
    edit: EditView,
    source: Seq<char>,
    now_ms: u64,
) -> Result<EditEffect, Refusal> {
    match edit.fault() {
        Some(e) => Err(e),
        None => match edit.target() {
            Err(e) => Err(e),
            Ok(id) => match edit.action {
                RefinementAction::Create => if entries.dom().contains(id) {
                    Err(Refusal::Invalid("entry '"@ + id + "' already exists"@))
                } else {
                    settled_effect(entries, id, None, created_entry(edit, id, source, now_ms))
                },
                RefinementAction::Update => if !entries.dom().contains(id) {
                    Err(Refusal::Invalid("entry '"@ + id + "' does not exist"@))
                } else {
                    match precondition_fault(edit, entries[id]) {
                        Some(e) => Err(e),
                        None => if entries[id].version == u64::MAX {
                            Err(Refusal::RevisionOverflow)
                        } else {
                            settled_effect(
                                entries,
                                id,
                                Some(entries[id]),
                                updated_entry(edit, entries[id], source, now_ms),
                            )
                        },
                    }
                },
                RefinementAction::Delete => if !entries.dom().contains(id) {
                    Err(Refusal::Invalid("entry '"@ + id + "' does not exist"@))
                } else {
                    match precondition_fault(edit, entries[id]) {
                        Some(e) => Err(e),
                        None => Ok(EditEffect { id, before: Some(entries[id]), after: None }),
                    }
                },
            },
        },
    }
}

/// An applied update is of the entry that it names. Each of title, content and skill that the
/// edit carries stands in the entry afterwards, and each that it does not carry stands as it did;
/// the identity, the kind and the time of creation are kept. The version is one higher, and the
/// entry names the update's source and time.
pub proof fn law_updates_change_what_they_carry(
    entries: Map<Seq<char>, EntryView>,
    edit: EditView,
    source: Seq<char>,
    now_ms: u64,
)
    requires
        edit.action is Update,
        edit_effect(entries, edit, source, now_ms) is Ok,
    ensures
        ({
            let effect = edit_effect(entries, edit, source, now_ms)->Ok_0;
            let before = effect.before->Some_0;
            let after = effect.after->Some_0;
            &&& edit.id == Some(effect.id)
            &&& entries.dom().contains(effect.id)
            &&& effect.before == Some(entries[effect.id])
            &&& effect.after is Some
            &&& edit.title is Some ==> after.title == edit.title->Some_0
            &&& edit.title is None ==> after.title == before.title
            &&& edit.content is Some ==> after.content == edit.content->Some_0
            &&& edit.content is None ==> after.content == before.content
            &&& edit.skill is Some ==> after.skill == edit.skill
            &&& edit.skill is None ==> after.skill == before.skill
            &&& after.id == before.id
            &&& after.kind == before.kind
            &&& after.kind == edit.kind
            &&& after.created_at_ms == before.created_at_ms
            &&& after.updated_at_ms == now_ms
            &&& after.version == before.version + 1
            &&& after.source == source
            &&& edit.expected_version is Some ==> edit.expected_version == Some(before.version)
        }),
{
}

/// An applied create makes an entry where there was none, with the kind, title, content and skill
/// that the edit carries, in its first version, named by its source and dated at its time. An
/// edit that names no entry is of the one that its title names.
pub proof fn law_creates_make_what_they_carry(
    entries: Map<Seq<char>, EntryView>,
    edit: EditView,
    source: Seq<char>,
    now_ms: u64,
)
    requires
        edit.action is Create,
        edit_effect(entries, edit, source, now_ms) is Ok,
    ensures
        ({
            let effect = edit_effect(entries, edit, source, now_ms)->Ok_0;
            let after = effect.after->Some_0;
            &&& edit.id is Some ==> edit.id == Some(effect.id)
            &&& !entries.dom().contains(effect.id)
            &&& effect.before is None
            &&& effect.after is Some
            &&& after.id == effect.id
            &&& after.kind == edit.kind
            &&& edit.title == Some(after.title)
            &&& edit.content == Some(after.content)
            &&& after.skill == edit.skill
            &&& after.source == source
            &&& after.version == 1
            &&& after.created_at_ms == now_ms
            &&& after.updated_at_ms == now_ms
        }),
{
}

/// An applied delete is of the entry that it names, which had the kind and the version that the
/// edit asks for, and leaves nothing in its place.
pub proof fn law_deletes_leave_nothing(
    entries: Map<Seq<char>, EntryView>,
    edit: EditView,
    source: Seq<char>,
    now_ms: u64,
)
    requires
        edit.action is Delete,
        edit_effect(entries, edit, source, now_ms) is Ok,
    ensures
        ({
            let effect = edit_effect(entries, edit, source, now_ms)->Ok_0;
            &&& edit.id == Some(effect.id)
            &&& entries.dom().contains(effect.id)
            &&& effect.before == Some(entries[effect.id])
            &&& effect.after is None
            &&& effect.before->Some_0.kind == edit.kind
            &&& edit.expected_version is Some ==> edit.expected_version == Some(
                effect.before->Some_0.version,
            )
        }),
{
}

/// An update is applied wherever nothing stands against it: the edit is valid, the entry that it
/// names is there, of its kind and in the version that it expects, a version is left, and the
/// entry with what the edit carries in place is valid and within the budgets.
pub proof fn law_sound_updates_are_applied(
    entries: Map<Seq<char>, EntryView>,
    edit: EditView,
    source: Seq<char>,
    now_ms: u64,
    id: Seq<char>,
    after: EntryView,
)
    requires
        edit.action is Update,
        edit.fault() is None,
        edit.id == Some(id),
        entries.dom().contains(id),
        entries[id].kind == edit.kind,
        edit.expected_version is None || edit.expected_version == Some(entries[id].version),
        entries[id].version < u64::MAX,
        edit.title is Some ==> after.title == edit.title->Some_0,
        edit.title is None ==> after.title == entries[id].title,
        edit.content is Some ==> after.content == edit.content->Some_0,
        edit.content is None ==> after.content == entries[id].content,
        edit.skill is Some ==> after.skill == edit.skill,
        edit.skill is None ==> after.skill == entries[id].skill,
        after.id == entries[id].id,
        after.kind == entries[id].kind,
        after.source == source,
        after.version == entries[id].version + 1,
        after.created_at_ms == entries[id].created_at_ms,
        after.updated_at_ms == now_ms,
        after.fault() is None,
        budget_fault(entries.insert(id, after)) is None,
    ensures
        edit_effect(entries, edit, source, now_ms) == Ok::<EditEffect, Refusal>(
            EditEffect { id, before: Some(entries[id]), after: Some(after) },
        ),
{
    assert(updated_entry(edit, entries[id], source, now_ms) == after);
}

/// A create is applied wherever nothing stands against it: the edit is valid, the entry that it
/// is about is not there, and the entry with what the edit carries is valid and within the
/// budgets.
pub proof fn law_sound_creates_are_applied(
    entries: Map<Seq<char>, EntryView>,
    edit: EditView,
    source: Seq<char>,
    now_ms: u64,
    after: EntryView,
)
    requires
        edit.action is Create,
        edit.fault() is None,
        edit.target() == Ok::<Seq<char>, Refusal>(after.id),
        !entries.dom().contains(after.id),
        after.kind == edit.kind,
        edit.title == Some(after.title),
        edit.content == Some(after.content),
        after.skill == edit.skill,
        after.source == source,
        after.version == 1,
        after.created_at_ms == now_ms,
        after.updated_at_ms == now_ms,
        after.fault() is None,
        budget_fault(entries.insert(after.id, after)) is None,
    ensures
        edit_effect(entries, edit, source, now_ms) == Ok::<EditEffect, Refusal>(
            EditEffect { id: after.id, before: None, after: Some(after) },
        ),
{
    assert(created_entry(edit, after.id, source, now_ms) == after);
}

/// A delete is applied wherever the edit is valid and the entry that it names is there, of its
/// kind and in the version that it expects.
pub proof fn law_sound_deletes_are_applied(
    entries: Map<Seq<char>, EntryView>,
    edit: EditView,
    source: Seq<char>,
    now_ms: u64,
    id: Seq<char>,
)
    requires
        edit.action is Delete,
        edit.fault() is None,
        edit.id == Some(id),
        entries.dom().contains(id),
        entries[id].kind == edit.kind,
        edit.expected_version is None || edit.expected_version == Some(entries[id].version),
    ensures
        edit_effect(entries, edit, source, now_ms) == Ok::<EditEffect, Refusal>(
            EditEffect { id, before: Some(entries[id]), after: None },
        ),
{
}

/// An edit changes the ledger under the identity of its entry alone: there the ledger holds what
/// the edit leaves, and every other entry stands as it did.
pub proof fn law_edits_touch_one_entry(
    entries: Map<Seq<char>, EntryView>,
    edit: EditView,
    source: Seq<char>,
    now_ms: u64,
    other: Seq<char>,
)
    requires
        edit_effect(entries, edit, source, now_ms) is Ok,
    ensures
        ({
            let effect = edit_effect(entries, edit, source, now_ms)->Ok_0;
            let after = with_effect(entries, effect.id, effect.after);
            &&& after.dom().contains(effect.id) <==> !(edit.action is Delete)
            &&& effect.after is Some ==> after[effect.id] == effect.after->Some_0
            &&& other != effect.id ==> (after.dom().contains(other) <==> entries.dom().contains(
                other,
            ))
            &&& other != effect.id ==> after[other] == entries[other]
        }),
{
}

/// What an optional entry says.
pub open spec fn optional_entry(entry: Option<HarnessEntry>) -> Option<EntryView> {
    match entry {
        Some(e) => Some(e@),
        None => None,
    }
}

/// A second copy of an optional entry.
pub fn duplicate_entry(entry: &Option<HarnessEntry>) -> (r: Option<HarnessEntry>)
    ensures
        optional_entry(r) == optional_entry(*entry),
{
    match entry {
        Some(e) => Some(e.duplicate()),
        None => None,
    }
}

/// A second copy of an optional text.
pub fn duplicate_text(text: &Option<String>) -> (r: Option<String>)
    ensures
        option_view(r) == option_view(*text),
{
    match text {
        Some(s) => Some(s.clone()),
        None => None,
    }
}

proof fn lemma_views_insert(m: Map<Seq<char>, HarnessEntry>, id: Seq<char>, entry: HarnessEntry)
    ensures
        entry_views(m.insert(id, entry)) == entry_views(m).insert(id, entry@),
{
    assert(entry_views(m.insert(id, entry)) =~= entry_views(m).insert(id, entry@));
}

proof fn lemma_views_remove(m: Map<Seq<char>, HarnessEntry>, id: Seq<char>)
    ensures
        entry_views(m.remove(id)) == entry_views(m).remove(id),
{
    assert(entry_views(m.remove(id)) =~= entry_views(m).remove(id));
}

/// The identifier, the entry before and the entry after a committed edit.
pub type EditOutcome = (String, Option<HarnessEntry>, Option<HarnessEntry>);

/// Applies one edit. A refused edit leaves the entries as they were.
pub fn apply_edit(
    entries: &mut TextMap<HarnessEntry>,
    edit: &RefinementEdit,
    source: &str,
    now_ms: u64,
) -> (r: Result<EditOutcome, EvolutionError>)
    ensures
        ({
            let before = entry_views(old(entries)@);
            let after = entry_views(final(entries)@);
            match edit_effect(before, edit@, source@, now_ms) {
                Ok(effect) => match r {
                    Ok((id, was, is)) => {
                        &&& id@ == effect.id
                        &&& optional_entry(was) == effect.before
                        &&& optional_entry(is) == effect.after
                        &&& after == with_effect(before, effect.id, effect.after)
                    },
                    Err(_) => false,
                },
                Err(e) => refusal(r) == Some(e) && after == before,
            }
        }),
{
    edit.validate()?;
    let ghost before = entry_views(entries@);
    let entry_id: String = match (&edit.id, &edit.title) {
        (Some(id), _) => id.clone(),
        (None, Some(title)) => derive_entry_id(title.as_str())?,
        (None, None) => {
            return Err(invalid("an edit names no entry"));
        },
    };
    let ghost id = entry_id@;
    proof {
        assert(edit@.target() == Ok::<Seq<char>, Refusal>(id));
        assert(before.dom() =~= entries@.dom());
    }
    match edit.action {
        RefinementAction::Create => {
            if entries.contains_key(entry_id.as_str()) {
                return Err(
                    EvolutionError::Invalid(
                        joined3("entry '", entry_id.as_str(), "' already exists"),
                    ),
                );
            }
            let (title, content) = match (&edit.title, &edit.content) {
                (Some(title), Some(content)) => (title.clone(), content.clone()),
                _ => {
                    return Err(invalid("a create edit requires a title and content"));
                },
            };
            let entry = HarnessEntry {
                id: entry_id.clone(),
                kind: edit.kind,
                title,
                content,
                skill: duplicate_skill(&edit.skill),
                source: source.to_owned(),
                version: 1,
                created_at_ms: now_ms,
                updated_at_ms: now_ms,
            };
            assert(entry@ == created_entry(edit@, id, source@, now_ms));
            entry.validate()?;
            let kept = entry.duplicate();
            proof {
                lemma_views_insert(entries@, id, kept);
            }
            entries.insert(entry_id.as_str(), kept);
            match check_budgets(entries) {
                Ok(()) => {},
                Err(error) => {
                    proof {
                        lemma_views_remove(entries@, id);
                    }
                    entries.remove(entry_id.as_str());
                    proof {
                        assert(before.insert(id, entry@).remove(id) =~= before);
                    }
                    return Err(error);
                },
            }
            Ok((entry_id, None, Some(entry)))
        },
        RefinementAction::Update => {
            let existing = match entries.get(entry_id.as_str()) {
                Some(e) => e.duplicate(),
                None => {
                    return Err(
                        EvolutionError::Invalid(
                            joined3("entry '", entry_id.as_str(), "' does not exist"),
                        ),
                    );
                },
            };
            assert(existing@ == before[id]);
            check_edit_preconditions(edit, &existing)?;
            if existing.version == u64::MAX {
                return Err(EvolutionError::RevisionOverflow);
            }
            let updated = HarnessEntry {
                id: existing.id.clone(),
                kind: existing.kind,
                title: match &edit.title {
                    Some(title) => title.clone(),
                    None => existing.title.clone(),
                },
                content: match &edit.content {
                    Some(content) => content.clone(),
                    None => existing.content.clone(),
                },
                skill: match &edit.skill {
                    Some(skill) => Some(skill.duplicate()),
                    None => duplicate_skill(&existing.skill),
                },
                source: source.to_owned(),
                version: existing.version + 1,
                created_at_ms: existing.created_at_ms,
                updated_at_ms: now_ms,
            };
            assert(updated@ == updated_entry(edit@, before[id], source@, now_ms));
            updated.validate()?;
            let kept = updated.duplicate();
            proof {
                lemma_views_insert(entries@, id, kept);
            }
            entries.insert(entry_id.as_str(), kept);
            match check_budgets(entries) {
                Ok(()) => {},
                Err(error) => {
                    proof {
                        lemma_views_insert(entries@, id, existing);
                        assert(before.insert(id, updated@).insert(id, existing@) =~= before);
                    }
                    entries.insert(entry_id.as_str(), existing);
                    return Err(error);
                },
            }
            Ok((entry_id, Some(existing), Some(updated)))
        },
        RefinementAction::Delete => {
            let existing = match entries.get(entry_id.as_str()) {
                Some(e) => e.duplicate(),
                None => {
                    return Err(
                        EvolutionError::Invalid(
                            joined3("entry '", entry_id.as_str(), "' does not exist"),
                        ),
                    );
                },
            };
            assert(existing@ == before[id]);
            check_edit_preconditions(edit, &existing)?;
            proof {
                lemma_views_remove(entries@, id);
            }
            entries.remove(entry_id.as_str());
            Ok((entry_id, Some(existing), None))
        },
    }
}

} // verus!
