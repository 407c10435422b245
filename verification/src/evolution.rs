//! The continual-harness ledger: typed supplemental entries per scope, refinement proposals
//! applied edit by edit, append-only refinement events, atomic rollback, and the marked
//! supplement section that a ledger renders into.

pub mod conformance;
pub mod copying;
pub mod course;
pub mod decode;
pub mod edit;
pub mod entry;
pub mod event;
pub mod identity;
pub mod planner;
pub mod rendering;
pub mod script;
pub mod settling;
pub mod soundness;
pub mod state;
pub mod store;
pub mod supplement;
pub mod wire;

use crate::session::SessionId;
use crate::text::{
    blank, byte_len, contains_text, decimal, holds_text, is_blank, push_decimal, same_text,
    strip_prefix, utf8_len,
};
use vstd::prelude::*;

verus! {

pub const EVOLUTION_STATE_SCHEMA_VERSION: u32 = 1;

pub const REFINEMENT_EVENT_SCHEMA_VERSION: u32 = 1;

pub const MAX_EVOLUTION_STATE_BYTES: usize = 2_097_152;

pub const MAX_REFINEMENT_EVENT_BYTES: usize = 2_097_152;

pub const MAX_HARNESS_ENTRIES_PER_SCOPE: usize = 256;

/// The bound on one scope's total entry text.
pub const MAX_HARNESS_SCOPE_CONTENT_BYTES: usize = 196_608;

pub const MAX_HARNESS_ENTRY_ID_BYTES: usize = 128;

pub const MAX_HARNESS_ENTRY_TITLE_BYTES: usize = 256;

pub const MAX_HARNESS_ENTRY_CONTENT_BYTES: usize = 65_536;

pub const MAX_HARNESS_SKILL_ARGUMENTS: usize = 32;

pub const MAX_REFINEMENT_EDITS: usize = 32;

pub const MAX_REFINEMENT_TEXT_BYTES: usize = 4_096;

pub const MAX_PLANNER_TRANSCRIPT_BYTES: usize = 81_920;

pub const MAX_RENDERED_REFINEMENT_HISTORY: usize = 5;

pub const MAX_HARNESS_EVIDENCE_REFS: usize = 64;

pub const MAX_ENTRY_SOURCE_BYTES: usize = 128;

pub const MAX_SKILL_INVOCATION_BYTES: usize = 1_024;

pub const MAX_SKILL_ARGUMENT_NAME_BYTES: usize = 64;

pub const MAX_SKILL_ARGUMENT_DOC_BYTES: usize = 1_024;

pub const MAX_SESSION_SCOPE_ID_BYTES: usize = 512;

pub const HARNESS_SUPPLEMENT_BEGIN: &'static str = "<continual_harness>";

pub const HARNESS_SUPPLEMENT_END: &'static str = "</continual_harness>";

/// Why the ledger refused something.
#[allow(inconsistent_fields)]
#[derive(Clone, Debug, PartialEq, Eq)]
pub enum EvolutionError {
    Invalid(String),
    StateTooLarge { actual: usize, maximum: usize },
    EventTooLarge { actual: usize, maximum: usize },
    ScopeMismatch { expected: String, actual: String },
    RevisionOverflow,
    RollbackConflict(String),
    MalformedSupplement(String),
    Harness(String),
    Serialization(String),
}

/// What an [`EvolutionError`] says.
#[allow(inconsistent_fields)]
pub enum Refusal {
    Invalid(Seq<char>),
    StateTooLarge { actual: usize, maximum: usize },
    EventTooLarge { actual: usize, maximum: usize },
    ScopeMismatch { expected: Seq<char>, actual: Seq<char> },
    RevisionOverflow,
    RollbackConflict(Seq<char>),
    MalformedSupplement(Seq<char>),
    Harness(Seq<char>),
    Serialization(Seq<char>),
}

impl View for EvolutionError {
    type V = Refusal;

    open spec fn view(&self) -> Refusal {
        match self {
            EvolutionError::Invalid(m) => Refusal::Invalid(m@),
            EvolutionError::StateTooLarge { actual, maximum } => Refusal::StateTooLarge {
                actual: *actual,
                maximum: *maximum,
            },
            EvolutionError::EventTooLarge { actual, maximum } => Refusal::EventTooLarge {
                actual: *actual,
                maximum: *maximum,
            },
            EvolutionError::ScopeMismatch { expected, actual } => Refusal::ScopeMismatch {
                expected: expected@,
                actual: actual@,
            },
            EvolutionError::RevisionOverflow => Refusal::RevisionOverflow,
            EvolutionError::RollbackConflict(m) => Refusal::RollbackConflict(m@),
            EvolutionError::MalformedSupplement(m) => Refusal::MalformedSupplement(m@),
            EvolutionError::Harness(m) => Refusal::Harness(m@),
            EvolutionError::Serialization(m) => Refusal::Serialization(m@),
        }
    }
}

impl Refusal {
    /// The refusal in words.
    pub open spec fn words(self) -> Seq<char> {
        match self {
            Refusal::Invalid(m) => "invalid harness evolution contract: "@ + m,
            Refusal::StateTooLarge { actual, maximum } => "evolution state is "@ + decimal(
                actual as nat,
            ) + " bytes; maximum is "@ + decimal(maximum as nat),
            Refusal::EventTooLarge { actual, maximum } => "refinement event is "@ + decimal(
                actual as nat,
            ) + " bytes; maximum is "@ + decimal(maximum as nat),
            Refusal::ScopeMismatch { expected, actual } => "harness scope mismatch: expected "@
                + expected + ", actual "@ + actual,
            Refusal::RevisionOverflow => "evolution revision overflow"@,
            Refusal::RollbackConflict(m) => "refinement rollback conflict: "@ + m,
            Refusal::MalformedSupplement(m) => "malformed harness supplement markers: "@ + m,
            Refusal::Harness(m) => m,
            Refusal::Serialization(m) => "harness evolution serialization failed: "@ + m,
        }
    }
}

impl EvolutionError {
    /// The error in words.
    pub fn describe(&self) -> (r: String)
        ensures
            r@ == self@.words(),
    {
        match self {
            EvolutionError::Invalid(m) => joined("invalid harness evolution contract: ", m.as_str()),
            EvolutionError::StateTooLarge { actual, maximum } => {
                let mut out = "evolution state is ".to_owned();
                push_decimal(&mut out, *actual as u64);
                out.append(" bytes; maximum is ");
                push_decimal(&mut out, *maximum as u64);
                out
            },
            EvolutionError::EventTooLarge { actual, maximum } => {
                let mut out = "refinement event is ".to_owned();
                push_decimal(&mut out, *actual as u64);
                out.append(" bytes; maximum is ");
                push_decimal(&mut out, *maximum as u64);
                out
            },
            EvolutionError::ScopeMismatch { expected, actual } => {
                let mut out = "harness scope mismatch: expected ".to_owned();
                out.append(expected.as_str());
                out.append(", actual ");
                out.append(actual.as_str());
                out
            },
            EvolutionError::RevisionOverflow => "evolution revision overflow".to_owned(),
            EvolutionError::RollbackConflict(m) => joined(
                "refinement rollback conflict: ",
                m.as_str(),
            ),
            EvolutionError::MalformedSupplement(m) => joined(
                "malformed harness supplement markers: ",
                m.as_str(),
            ),
            EvolutionError::Harness(m) => m.clone(),
            EvolutionError::Serialization(m) => joined(
                "harness evolution serialization failed: ",
                m.as_str(),
            ),
        }
    }
}

/// One text behind another.
pub fn joined(a: &str, b: &str) -> (r: String)
    ensures
        r@ == a@ + b@,
{
    let mut out = a.to_owned();
    out.append(b);
    out
}

/// Three texts, one behind the other.
pub fn joined3(a: &str, b: &str, c: &str) -> (r: String)
    ensures
        r@ == a@ + b@ + c@,
{
    let mut out = a.to_owned();
    out.append(b);
    out.append(c);
    out
}

/// An error with a fixed message.
pub fn invalid(message: &str) -> (r: EvolutionError)
    ensures
        r@ == Refusal::Invalid(message@),
{
    EvolutionError::Invalid(message.to_owned())
}

/// The refusal that a result carries.
pub open spec fn refusal<T>(r: Result<T, EvolutionError>) -> Option<Refusal> {
    match r {
        Ok(_) => None,
        Err(e) => Some(e@),
    }
}

/// The first of two refusals.
pub open spec fn first_of(a: Option<Refusal>, b: Option<Refusal>) -> Option<Refusal> {
    match a {
        Some(_) => a,
        None => b,
    }
}

/// What is wrong with a bounded text: it is blank or too long, or holds a supplement marker.
pub open spec fn text_fault(
    value: Seq<char>,
    maximum: usize,
    name: Seq<char>,
    forbid_markers: bool,
) -> Option<Refusal> {
    if is_blank(value) || utf8_len(value) > maximum {
        Some(
            Refusal::Invalid(name + " must contain 1..="@ + decimal(maximum as nat) + " bytes"@),
        )
    } else if forbid_markers && holds_marker(value) {
        Some(Refusal::Invalid(name + " must not contain harness supplement markers"@))
    } else {
        None
    }
}

/// Whether a text holds one of the two supplement markers.
pub open spec fn holds_marker(value: Seq<char>) -> bool {
    contains_text(value, HARNESS_SUPPLEMENT_BEGIN@) || contains_text(value, HARNESS_SUPPLEMENT_END@)
}

/// Checks a bounded text.
pub fn validate_text(
    value: &str,
    maximum: usize,
    name: &str,
    forbid_markers: bool,
) -> (r: Result<(), EvolutionError>)
    ensures
        refusal(r) == text_fault(value@, maximum, name@, forbid_markers),
{
    if blank(value) || byte_len(value) > maximum {
        let mut out = joined(name, " must contain 1..=");
        push_decimal(&mut out, maximum as u64);
        out.append(" bytes");
        return Err(EvolutionError::Invalid(out));
    }
    if forbid_markers && (holds_text(value, HARNESS_SUPPLEMENT_BEGIN) || holds_text(
        value,
        HARNESS_SUPPLEMENT_END,
    )) {
        return Err(
            EvolutionError::Invalid(joined(name, " must not contain harness supplement markers")),
        );
    }
    Ok(())
}

/// Where one ledger lives. Session entries overlay global entries of the same identifier.
#[derive(Clone, Debug, PartialEq, Eq, Hash)]
pub enum HarnessScope {
    Global,
    Session(SessionId),
}

/// What a [`HarnessScope`] says.
pub enum ScopeView {
    Global,
    Session(Seq<char>),
}

impl View for HarnessScope {
    type V = ScopeView;

    open spec fn view(&self) -> ScopeView {
        match self {
            HarnessScope::Global => ScopeView::Global,
            HarnessScope::Session(id) => ScopeView::Session(id@),
        }
    }
}

impl ScopeView {
    /// The scope as text.
    pub open spec fn text(self) -> Seq<char> {
        match self {
            ScopeView::Global => "global"@,
            ScopeView::Session(id) => "session:"@ + id,
        }
    }

    /// The kind of the scope.
    pub open spec fn label(self) -> Seq<char> {
        match self {
            ScopeView::Global => "global"@,
            ScopeView::Session(_) => "session"@,
        }
    }

    /// What is wrong with the scope.
    pub open spec fn fault(self) -> Option<Refusal> {
        match self {
            ScopeView::Global => None,
            ScopeView::Session(id) => text_fault(
                id,
                MAX_SESSION_SCOPE_ID_BYTES,
                "session scope ID"@,
                true,
            ),
        }
    }

    /// The scope that a text names, when it names one.
    pub open spec fn named(value: Seq<char>) -> Option<ScopeView> {
        if value == "global"@ {
            Some(ScopeView::Global)
        } else if crate::text::starts_with(value, "session:"@) {
            Some(ScopeView::Session(value.skip("session:"@.len() as int)))
        } else {
            None
        }
    }
}

impl HarnessScope {
    pub fn session(id: &str) -> (r: HarnessScope)
        ensures
            r@ == ScopeView::Session(id@),
    {
        HarnessScope::Session(SessionId::from_stored(id))
    }

    pub fn is_global(&self) -> (r: bool)
        ensures
            r == (self@ is Global),
    {
        match self {
            HarnessScope::Global => true,
            HarnessScope::Session(_) => false,
        }
    }

    /// The kind of the scope.
    pub fn label(&self) -> (r: &'static str)
        ensures
            r@ == self@.label(),
    {
        match self {
            HarnessScope::Global => "global",
            HarnessScope::Session(_) => "session",
        }
    }

    /// The scope as text.
    pub fn to_text(&self) -> (r: String)
        ensures
            r@ == self@.text(),
    {
        match self {
            HarnessScope::Global => "global".to_owned(),
            HarnessScope::Session(id) => joined("session:", id.as_str()),
        }
    }

    /// Checks the scope.
    pub fn validate(&self) -> (r: Result<(), EvolutionError>)
        ensures
            refusal(r) == self@.fault(),
    {
        match self {
            HarnessScope::Global => Ok(()),
            HarnessScope::Session(id) => validate_text(
                id.as_str(),
                MAX_SESSION_SCOPE_ID_BYTES,
                "session scope ID",
                true,
            ),
        }
    }

    /// Reads a scope from its text.
    pub fn parse(value: &str) -> (r: Result<HarnessScope, EvolutionError>)
        ensures
            match ScopeView::named(value@) {
                Some(scope) => match r {
                    Ok(s) => s@ == scope && scope.fault() is None,
                    Err(e) => scope.fault() == Some(e@),
                },
                None => refusal(r) == Some(
                    Refusal::Invalid("unknown harness scope '"@ + value@ + "'"@),
                ),
            },
    {
        let scope = if same_text(value, "global") {
            HarnessScope::Global
        } else {
            match strip_prefix(value, "session:") {
                Some(id) => HarnessScope::Session(SessionId(id)),
                None => {
                    return Err(
                        EvolutionError::Invalid(joined3("unknown harness scope '", value, "'")),
                    );
                },
            }
        };
        match scope.validate() {
            Ok(()) => Ok(scope),
            Err(e) => Err(e),
        }
    }

    /// Whether two scopes are the same.
    pub fn same(&self, other: &HarnessScope) -> (r: bool)
        ensures
            r == (self@ == other@),
    {
        match (self, other) {
            (HarnessScope::Global, HarnessScope::Global) => true,
            (HarnessScope::Session(a), HarnessScope::Session(b)) => same_text(
                a.as_str(),
                b.as_str(),
            ),
            _ => false,
        }
    }

    /// A second copy of the scope.
    pub fn duplicate(&self) -> (r: HarnessScope)
        ensures
            r@ == self@,
    {
        match self {
            HarnessScope::Global => HarnessScope::Global,
            HarnessScope::Session(id) => HarnessScope::Session(id.duplicate()),
        }
    }
}

/// A scope that is valid is read back from its text.
pub proof fn law_scope_text_round_trip(scope: ScopeView)
    requires
        scope.fault() is None,
    ensures
        ScopeView::named(scope.text()) == Some(scope),
{
    reveal_strlit("global");
    reveal_strlit("session:");
    match scope {
        ScopeView::Global => {},
        ScopeView::Session(id) => {
            let text = "session:"@ + id;
            assert(text[0] == 's');
            assert("global"@[0] == 'g');
            assert(text.subrange(0, 8) =~= "session:"@);
            assert(text.skip(8) =~= id);
        },
    }
}

} // verus!
