//! Harness evidence references, immutable snapshots and their stores.

pub mod conformance;
pub mod script;
pub mod snapshot;
pub mod store;

use crate::evolution::EvolutionError;
use crate::text::{blank, is_blank, same_text};
use vstd::prelude::*;

verus! {

/// The kinds of evidence that a refinement may cite.
#[derive(Clone, Copy, Debug, PartialEq, Eq, Hash, Structural)]
pub enum HarnessEvidenceKind {
    Refinement,
}

impl HarnessEvidenceKind {
    /// The name of the kind.
    pub open spec fn name(self) -> Seq<char> {
        match self {
            HarnessEvidenceKind::Refinement => "refinement"@,
        }
    }

    pub fn as_str(self) -> (r: &'static str)
        ensures
            r@ == self.name(),
    {
        match self {
            HarnessEvidenceKind::Refinement => "refinement",
        }
    }
}

/// A reference to a piece of evidence.
#[derive(Debug, PartialEq, Eq)]
pub struct HarnessEvidenceRef {
    pub kind: HarnessEvidenceKind,
    pub reference: String,
}

/// What a [`HarnessEvidenceRef`] says.
pub struct EvidenceView {
    pub kind: HarnessEvidenceKind,
    pub reference: Seq<char>,
}

impl View for HarnessEvidenceRef {
    type V = EvidenceView;

    open spec fn view(&self) -> EvidenceView {
        EvidenceView { kind: self.kind, reference: self.reference@ }
    }
}

impl HarnessEvidenceRef {
    /// Refers to a piece of evidence, which must be named.
    pub fn new(kind: HarnessEvidenceKind, reference: &str) -> (r: Result<
        HarnessEvidenceRef,
        EvolutionError,
    >)
        ensures
            match r {
                Ok(e) => !is_blank(reference@) && e@ == (EvidenceView {
                    kind,
                    reference: reference@,
                }),
                Err(e) => is_blank(reference@) && e@ == crate::evolution::Refusal::Harness(
                    "an evidence reference must not be empty"@,
                ),
            },
    {
        if blank(reference) {
            return Err(
                EvolutionError::Harness("an evidence reference must not be empty".to_owned()),
            );
        }
        Ok(HarnessEvidenceRef { kind, reference: reference.to_owned() })
    }

    /// Whether two references are the same.
    pub fn same(&self, other: &HarnessEvidenceRef) -> (r: bool)
        ensures
            r == (self@ == other@),
    {
        self.kind == other.kind && same_text(self.reference.as_str(), other.reference.as_str())
    }
}

/// A change of the system prompt of one snapshot, with the evidence for it.
#[derive(Debug, PartialEq, Eq)]
pub struct HarnessRefinementPatch {
    pub base_digest: String,
    pub system_prompt: String,
    pub evidence: Vec<HarnessEvidenceRef>,
}

/// What a [`HarnessRefinementPatch`] says.
pub struct PatchView {
    pub base_digest: Seq<char>,
    pub system_prompt: Seq<char>,
    pub evidence: Seq<EvidenceView>,
}

impl View for HarnessRefinementPatch {
    type V = PatchView;

    open spec fn view(&self) -> PatchView {
        PatchView {
            base_digest: self.base_digest@,
            system_prompt: self.system_prompt@,
            evidence: Seq::new(self.evidence@.len(), |i: int| self.evidence@[i]@),
        }
    }
}

} // verus!
