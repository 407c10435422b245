//! Comparing and copying ledgers and their events.

use crate::evolution::edit::{duplicate_entry, entry_views, optional_entry};
use crate::evolution::entry::HarnessEntry;
use crate::evolution::event::{
    applied_views, evidence_views, rejected_views, AppliedEdit, RefinementEvent,
    RefinementEventKind, RejectedEdit,
};
use crate::evolution::state::{duplicate_entries, EvolutionState};
use crate::harness::HarnessEvidenceRef;
use crate::text::{copy_option, same_option, same_text};
use crate::text_map::{sorted_keys, TextMap};
use vstd::prelude::*;

verus! {

/// Whether two optional entries say the same.
fn same_entry(a: &Option<HarnessEntry>, b: &Option<HarnessEntry>) -> (r: bool)
    ensures
        r == (optional_entry(*a) == optional_entry(*b)),
{
    match (a, b) {
        (None, None) => true,
        (Some(x), Some(y)) => x.same(y),
        _ => false,
    }
}

impl AppliedEdit {
    /// Whether two records say the same.
    pub fn same(&self, other: &AppliedEdit) -> (r: bool)
        ensures
            r == (self@ == other@),
    {
        self.index == other.index && same_text(self.entry_id.as_str(), other.entry_id.as_str())
            && self.action == other.action && same_entry(&self.before, &other.before)
            && same_entry(&self.after, &other.after)
    }

    /// A second copy of the record.
    pub fn duplicate(&self) -> (r: AppliedEdit)
        ensures
            r@ == self@,
    {
        AppliedEdit {
            index: self.index,
            entry_id: self.entry_id.clone(),
            action: self.action,
            before: duplicate_entry(&self.before),
            after: duplicate_entry(&self.after),
        }
    }
}

impl RejectedEdit {
    /// Whether two records say the same.
    pub fn same(&self, other: &RejectedEdit) -> (r: bool)
        ensures
            r == (self@ == other@),
    {
        self.index == other.index && same_option(&self.entry_id, &other.entry_id) && same_text(
            self.error.as_str(),
            other.error.as_str(),
        )
    }

    /// A second copy of the record.
    pub fn duplicate(&self) -> (r: RejectedEdit)
        ensures
            r@ == self@,
    {
        RejectedEdit {
            index: self.index,
            entry_id: copy_option(&self.entry_id),
            error: self.error.clone(),
        }
    }
}

fn same_applied(a: &Vec<AppliedEdit>, b: &Vec<AppliedEdit>) -> (r: bool)
    ensures
        r == (applied_views(a@) == applied_views(b@)),
{
    let ghost left = applied_views(a@);
    let ghost right = applied_views(b@);
    if a.len() != b.len() {
        assert(left.len() != right.len());
        return false;
    }
    let mut i: usize = 0;
    while i < a.len()
        invariant
            i <= a@.len(),
            a@.len() == b@.len(),
            left == applied_views(a@),
            right == applied_views(b@),
            forall|j: int| 0 <= j < i ==> #[trigger] left[j] == right[j],
        decreases a@.len() - i,
    {
        if !a[i].same(&b[i]) {
            assert(left[i as int] != right[i as int]);
            return false;
        }
        i += 1;
    }
    assert(left =~= right);
    true
}

fn copy_applied(edits: &Vec<AppliedEdit>) -> (r: Vec<AppliedEdit>)
    ensures
        applied_views(r@) == applied_views(edits@),
{
    let mut out: Vec<AppliedEdit> = Vec::new();
    let mut i: usize = 0;
    while i < edits.len()
        invariant
            i <= edits@.len(),
            out@.len() == i,
            forall|j: int| 0 <= j < i ==> (#[trigger] out@[j])@ == edits@[j]@,
        decreases edits@.len() - i,
    {
        out.push(edits[i].duplicate());
        i += 1;
    }
    assert(applied_views(out@) =~= applied_views(edits@));
    out
}

fn same_rejected(a: &Vec<RejectedEdit>, b: &Vec<RejectedEdit>) -> (r: bool)
    ensures
        r == (rejected_views(a@) == rejected_views(b@)),
{
    let ghost left = rejected_views(a@);
    let ghost right = rejected_views(b@);
    if a.len() != b.len() {
        assert(left.len() != right.len());
        return false;
    }
    let mut i: usize = 0;
    while i < a.len()
        invariant
            i <= a@.len(),
            a@.len() == b@.len(),
            left == rejected_views(a@),
            right == rejected_views(b@),
            forall|j: int| 0 <= j < i ==> #[trigger] left[j] == right[j],
        decreases a@.len() - i,
    {
        if !a[i].same(&b[i]) {
            assert(left[i as int] != right[i as int]);
            return false;
        }
        i += 1;
    }
    assert(left =~= right);
    true
}

fn copy_rejected(edits: &Vec<RejectedEdit>) -> (r: Vec<RejectedEdit>)
    ensures
        rejected_views(r@) == rejected_views(edits@),
{
    let mut out: Vec<RejectedEdit> = Vec::new();
    let mut i: usize = 0;
    while i < edits.len()
        invariant
            i <= edits@.len(),
            out@.len() == i,
            forall|j: int| 0 <= j < i ==> (#[trigger] out@[j])@ == edits@[j]@,
        decreases edits@.len() - i,
    {
        out.push(edits[i].duplicate());
        i += 1;
    }
    assert(rejected_views(out@) =~= rejected_views(edits@));
    out
}

fn same_evidence(a: &Vec<HarnessEvidenceRef>, b: &Vec<HarnessEvidenceRef>) -> (r: bool)
    ensures
        r == (evidence_views(a@) == evidence_views(b@)),
{
    let ghost left = evidence_views(a@);
    let ghost right = evidence_views(b@);
    if a.len() != b.len() {
        assert(left.len() != right.len());
        return false;
    }
    let mut i: usize = 0;
    while i < a.len()
        invariant
            i <= a@.len(),
            a@.len() == b@.len(),
            left == evidence_views(a@),
            right == evidence_views(b@),
            forall|j: int| 0 <= j < i ==> #[trigger] left[j] == right[j],
        decreases a@.len() - i,
    {
        if !a[i].same(&b[i]) {
            assert(left[i as int] != right[i as int]);
            return false;
        }
        i += 1;
    }
    assert(left =~= right);
    true
}

fn copy_evidence(refs: &Vec<HarnessEvidenceRef>) -> (r: Vec<HarnessEvidenceRef>)
    ensures
        evidence_views(r@) == evidence_views(refs@),
{
    let mut out: Vec<HarnessEvidenceRef> = Vec::new();
    let mut i: usize = 0;
    while i < refs.len()
        invariant
            i <= refs@.len(),
            out@.len() == i,
            forall|j: int| 0 <= j < i ==> (#[trigger] out@[j])@ == refs@[j]@,
        decreases refs@.len() - i,
    {
        out.push(
            HarnessEvidenceRef { kind: refs[i].kind, reference: refs[i].reference.clone() },
        );
        i += 1;
    }
    assert(evidence_views(out@) =~= evidence_views(refs@));
    out
}

impl RefinementEventKind {
    /// Whether two kinds are the same.
    pub fn same(&self, other: &RefinementEventKind) -> (r: bool)
        ensures
            r == (self@ == other@),
    {
        match (self, other) {
            (RefinementEventKind::Applied, RefinementEventKind::Applied) => true,
            (
                RefinementEventKind::Rollback { of_event_id: a },
                RefinementEventKind::Rollback { of_event_id: b },
            ) => same_text(a.as_str(), b.as_str()),
            _ => false,
        }
    }

    /// A second copy of the kind.
    pub fn duplicate(&self) -> (r: RefinementEventKind)
        ensures
            r@ == self@,
    {
        match self {
            RefinementEventKind::Applied => RefinementEventKind::Applied,
            RefinementEventKind::Rollback { of_event_id } => RefinementEventKind::Rollback {
                of_event_id: of_event_id.clone(),
            },
        }
    }
}

impl RefinementEvent {
    /// Whether two events say the same.
    pub fn same(&self, other: &RefinementEvent) -> (r: bool)
        ensures
            r == (self@ == other@),
    {
        self.schema_version == other.schema_version && same_text(
            self.event_id.as_str(),
            other.event_id.as_str(),
        ) && self.scope.same(&other.scope) && self.kind.same(&other.kind) && self.based_on_revision
            == other.based_on_revision && self.resulting_revision == other.resulting_revision
            && same_text(self.summary.as_str(), other.summary.as_str()) && same_text(
            self.rationale.as_str(),
            other.rationale.as_str(),
        ) && same_text(self.expected_outcome.as_str(), other.expected_outcome.as_str())
            && same_applied(&self.applied, &other.applied) && same_rejected(
            &self.rejected,
            &other.rejected,
        ) && same_evidence(&self.evidence, &other.evidence) && self.created_at_ms
            == other.created_at_ms
    }

    /// A second copy of the event.
    pub fn duplicate(&self) -> (r: RefinementEvent)
        ensures
            r@ == self@,
    {
        RefinementEvent {
            schema_version: self.schema_version,
            event_id: self.event_id.clone(),
            scope: self.scope.duplicate(),
            kind: self.kind.duplicate(),
            based_on_revision: self.based_on_revision,
            resulting_revision: self.resulting_revision,
            summary: self.summary.clone(),
            rationale: self.rationale.clone(),
            expected_outcome: self.expected_outcome.clone(),
            applied: copy_applied(&self.applied),
            rejected: copy_rejected(&self.rejected),
            evidence: copy_evidence(&self.evidence),
            created_at_ms: self.created_at_ms,
        }
    }
}

fn same_entries(a: &TextMap<HarnessEntry>, b: &TextMap<HarnessEntry>) -> (r: bool)
    ensures
        r == (entry_views(a@) == entry_views(b@)),
{
    let ghost left = entry_views(a@);
    let ghost right = entry_views(b@);
    let n: usize = a.len();
    let m: usize = b.len();
    proof {
        assert(left.dom() =~= a@.dom());
        assert(right.dom() =~= b@.dom());
    }
    if n != m {
        return false;
    }
    let ghost keys = a.keys();
    let mut i: usize = 0;
    while i < n
        invariant
            i <= n,
            n == keys.len(),
            keys == a.keys(),
            n == b.keys().len(),
            keys == sorted_keys(left.dom()),
            b.keys() == sorted_keys(right.dom()),
            left == entry_views(a@),
            right == entry_views(b@),
            forall|j: int|
                0 <= j < i ==> #[trigger] keys[j] == b.keys()[j] && left[keys[j]] == right[keys[j]],
        decreases n - i,
    {
        let key = a.key_at(i);
        let other = b.key_at(i);
        if !same_text(key, other) {
            return false;
        }
        if !a.value_at(i).same(b.value_at(i)) {
            assert(left[key@] != right[key@]);
            return false;
        }
        i += 1;
    }
    proof {
        assert(keys =~= b.keys());
        assert forall|k: Seq<char>| left.dom().contains(k) <==> right.dom().contains(k) by {
            assert(a@.dom().contains(k) == keys.contains(k));
            assert(b@.dom().contains(k) == b.keys().contains(k));
        }
        assert forall|k: Seq<char>| #[trigger] left.dom().contains(k) implies left[k]
            == right[k] by {
            assert(keys.contains(k));
            let j = choose|j: int| 0 <= j < keys.len() && keys[j] == k;
            assert(keys[j] == b.keys()[j]);
        }
        assert(left =~= right);
    }
    true
}

impl EvolutionState {
    /// Whether two ledgers say the same.
    pub fn same(&self, other: &EvolutionState) -> (r: bool)
        ensures
            r == (self@ == other@),
    {
        self.schema_version == other.schema_version && self.scope.same(&other.scope)
            && self.revision == other.revision && same_entries(&self.entries, &other.entries)
    }

    /// A second copy of the ledger.
    pub fn duplicate(&self) -> (r: EvolutionState)
        ensures
            r@ == self@,
    {
        EvolutionState {
            schema_version: self.schema_version,
            scope: self.scope.duplicate(),
            revision: self.revision,
            entries: duplicate_entries(&self.entries),
        }
    }
}

} // verus!
