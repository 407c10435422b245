//! How executions and sessions end, what a checkpoint carries and what it lost, and the receipts
//! that say so.

use crate::artifact::{identity_of, ArtifactDigest, ArtifactHandle};
use crate::digest::{
    framed, law_text_framing_is_injective, text_bytes, text_views, texts_frameable,
};
use crate::kernel::{
    as_corrupt, corrupt, corrupted, execution_bounds_fault, first_of, generation_fault,
    kernel_fault, key_fault, label_fault, numbered, two, validation, ExecutionBoundsView,
    KernelError, KernelExecutionBounds, KernelExecutionKey, KernelFault, KernelGeneration,
    KernelLabel, KernelSessionId, KeyView, MAX_KERNEL_NON_RESTORABLE_FACTS,
    MAX_KERNEL_RESTORABLE_FACTS, MAX_KERNEL_SESSION_EXECUTIONS,
};
use crate::program::custody::{
    capture_addressed, capture_field, capture_text, law_fields_tell_captures_apart,
};
use crate::program::{
    capture_fault, capture_view, copy_capture, digest_of_fields, fields_identity, push_number,
    push_text, CaptureRecord, CaptureView, ProcessIdentity, ProgramStream,
};
use crate::text::{
    debug_quoted, decimal, lemma_decimal_injective, lemma_signed_round_trip, parse_i32, parsed_i32,
    push_decimal, quoted, same_text, signed_decimal, signed_text, starts_with, strip_prefix,
};
use vstd::prelude::*;

verus! {

/// How one execution inside a session ended.
#[non_exhaustive]
#[derive(Debug, PartialEq, Eq, Hash)]
pub enum KernelExecutionDisposition {
    /// The fragment ran to its end without raising.
    Completed,
    /// The fragment raised. The class is a name that the kernel reported.
    Raised { error_class: KernelLabel },
    /// A caller stopped it, and the session survived.
    Cancelled,
    /// The deadline passed, and the session survived.
    TimedOut,
    /// The kernel ended while the execution was in flight. The work may be done, half done or not
    /// begun.
    KernelDied,
    /// The execution was in flight when its owner died, and the kernel is gone.
    Interrupted,
}

/// What a [`KernelExecutionDisposition`] says.
pub enum EndView {
    Completed,
    Raised { error_class: Seq<char> },
    Cancelled,
    TimedOut,
    KernelDied,
    Interrupted,
}

impl View for KernelExecutionDisposition {
    type V = EndView;

    open spec fn view(&self) -> EndView {
        match self {
            KernelExecutionDisposition::Completed => EndView::Completed,
            KernelExecutionDisposition::Raised { error_class } => EndView::Raised {
                error_class: error_class@,
            },
            KernelExecutionDisposition::Cancelled => EndView::Cancelled,
            KernelExecutionDisposition::TimedOut => EndView::TimedOut,
            KernelExecutionDisposition::KernelDied => EndView::KernelDied,
            KernelExecutionDisposition::Interrupted => EndView::Interrupted,
        }
    }
}

impl EndView {
    /// The stable token of the disposition.
    pub open spec fn token(self) -> Seq<char> {
        match self {
            EndView::Completed => "completed"@,
            EndView::Raised { error_class } => "raised:"@ + error_class,
            EndView::Cancelled => "cancelled"@,
            EndView::TimedOut => "timed_out"@,
            EndView::KernelDied => "kernel_died"@,
            EndView::Interrupted => "interrupted"@,
        }
    }
}

/// The disposition that a token stands for, or why it stands for none.
pub open spec fn end_named(token: Seq<char>) -> Result<EndView, KernelFault> {
    if starts_with(token, "raised:"@) {
        let class = token.skip("raised:"@.len() as int);
        if label_fault(class) is None {
            Ok(EndView::Raised { error_class: class })
        } else {
            Err(
                KernelFault::Corrupt("stored kernel disposition has an undecodable error class"@),
            )
        }
    } else if token == "completed"@ {
        Ok(EndView::Completed)
    } else if token == "cancelled"@ {
        Ok(EndView::Cancelled)
    } else if token == "timed_out"@ {
        Ok(EndView::TimedOut)
    } else if token == "kernel_died"@ {
        Ok(EndView::KernelDied)
    } else if token == "interrupted"@ {
        Ok(EndView::Interrupted)
    } else {
        Err(KernelFault::Corrupt("unknown kernel disposition "@ + debug_quoted(token)))
    }
}

impl KernelExecutionDisposition {
    /// Success is exactly one thing.
    pub fn is_success(&self) -> (r: bool)
        ensures
            r == (self@ is Completed),
    {
        match self {
            KernelExecutionDisposition::Completed => true,
            _ => false,
        }
    }

    /// The stable token of the disposition.
    pub fn as_token(&self) -> (r: String)
        ensures
            r@ == self@.token(),
    {
        match self {
            KernelExecutionDisposition::Completed => "completed".to_owned(),
            KernelExecutionDisposition::Raised { error_class } => two(
                "raised:",
                error_class.as_str(),
            ),
            KernelExecutionDisposition::Cancelled => "cancelled".to_owned(),
            KernelExecutionDisposition::TimedOut => "timed_out".to_owned(),
            KernelExecutionDisposition::KernelDied => "kernel_died".to_owned(),
            KernelExecutionDisposition::Interrupted => "interrupted".to_owned(),
        }
    }

    /// Reads a token.
    pub fn parse(value: &str) -> (r: Result<KernelExecutionDisposition, KernelError>)
        ensures
            match end_named(value@) {
                Ok(end) => r is Ok && r->Ok_0@ == end,
                Err(e) => kernel_fault(r) == Some(e),
            },
    {
        if let Some(class) = strip_prefix(value, "raised:") {
            return match KernelLabel::new(class.as_str()) {
                Ok(error_class) => Ok(KernelExecutionDisposition::Raised { error_class }),
                Err(_) => Err(
                    corrupt("stored kernel disposition has an undecodable error class"),
                ),
            };
        }
        if same_text(value, "completed") {
            return Ok(KernelExecutionDisposition::Completed);
        }
        if same_text(value, "cancelled") {
            return Ok(KernelExecutionDisposition::Cancelled);
        }
        if same_text(value, "timed_out") {
            return Ok(KernelExecutionDisposition::TimedOut);
        }
        if same_text(value, "kernel_died") {
            return Ok(KernelExecutionDisposition::KernelDied);
        }
        if same_text(value, "interrupted") {
            return Ok(KernelExecutionDisposition::Interrupted);
        }
        let name = quoted(value);
        Err(KernelError::Corrupt(two("unknown kernel disposition ", name.as_str())))
    }

    /// A second copy of the disposition.
    pub fn duplicate(&self) -> (r: KernelExecutionDisposition)
        ensures
            r@ == self@,
    {
        match self {
            KernelExecutionDisposition::Completed => KernelExecutionDisposition::Completed,
            KernelExecutionDisposition::Raised { error_class } => {
                KernelExecutionDisposition::Raised { error_class: error_class.duplicate() }
            },
            KernelExecutionDisposition::Cancelled => KernelExecutionDisposition::Cancelled,
            KernelExecutionDisposition::TimedOut => KernelExecutionDisposition::TimedOut,
            KernelExecutionDisposition::KernelDied => KernelExecutionDisposition::KernelDied,
            KernelExecutionDisposition::Interrupted => KernelExecutionDisposition::Interrupted,
        }
    }

    /// Whether two dispositions are the same.
    pub fn same(&self, other: &KernelExecutionDisposition) -> (r: bool)
        ensures
            r == (self@ == other@),
    {
        match (self, other) {
            (
                KernelExecutionDisposition::Completed,
                KernelExecutionDisposition::Completed,
            ) => true,
            (
                KernelExecutionDisposition::Raised { error_class: a },
                KernelExecutionDisposition::Raised { error_class: b },
            ) => same_text(a.as_str(), b.as_str()),
            (
                KernelExecutionDisposition::Cancelled,
                KernelExecutionDisposition::Cancelled,
            ) => true,
            (KernelExecutionDisposition::TimedOut, KernelExecutionDisposition::TimedOut) => true,
            (
                KernelExecutionDisposition::KernelDied,
                KernelExecutionDisposition::KernelDied,
            ) => true,
            (
                KernelExecutionDisposition::Interrupted,
                KernelExecutionDisposition::Interrupted,
            ) => true,
            _ => false,
        }
    }
}

/// A disposition is read back from its own token.
pub proof fn law_execution_tokens_round_trip(end: EndView)
    requires
        end matches EndView::Raised { error_class } ==> label_fault(error_class) is None,
    ensures
        end_named(end.token()) == Ok::<EndView, KernelFault>(end),
{
    reveal_strlit("raised:");
    reveal_strlit("completed");
    reveal_strlit("cancelled");
    reveal_strlit("timed_out");
    reveal_strlit("kernel_died");
    reveal_strlit("interrupted");
    match end {
        EndView::Raised { error_class } => {
            let token = "raised:"@ + error_class;
            assert(token.subrange(0, 7) =~= "raised:"@);
            assert(token.skip(7) =~= error_class);
        },
        _ => {
            let token = end.token();
            assert(token.subrange(0, 7)[0] == token[0]);
            assert("raised:"@[0] == 'r');
            assert("completed"@[1] == 'o' && "cancelled"@[1] == 'a');
        },
    }
}

/// How a whole incarnation ended.
#[non_exhaustive]
#[derive(Debug, PartialEq, Eq, Hash)]
pub enum KernelDisposition {
    /// A caller closed it.
    Closed,
    /// The process exited by itself.
    Exited { code: i32 },
    /// The idle deadline passed.
    IdleExpired,
    /// A declared ceiling was reached.
    CeilingReached { ceiling: KernelLabel },
    /// The session was live when its owner died, and the process is gone.
    Interrupted,
    /// No process was ever created.
    FailedToStart,
}

/// What a [`KernelDisposition`] says.
pub enum SessionEndView {
    Closed,
    Exited { code: i32 },
    IdleExpired,
    CeilingReached { ceiling: Seq<char> },
    Interrupted,
    FailedToStart,
}

impl View for KernelDisposition {
    type V = SessionEndView;

    open spec fn view(&self) -> SessionEndView {
        match self {
            KernelDisposition::Closed => SessionEndView::Closed,
            KernelDisposition::Exited { code } => SessionEndView::Exited { code: *code },
            KernelDisposition::IdleExpired => SessionEndView::IdleExpired,
            KernelDisposition::CeilingReached { ceiling } => SessionEndView::CeilingReached {
                ceiling: ceiling@,
            },
            KernelDisposition::Interrupted => SessionEndView::Interrupted,
            KernelDisposition::FailedToStart => SessionEndView::FailedToStart,
        }
    }
}

impl SessionEndView {
    /// The stable token of the disposition.
    pub open spec fn token(self) -> Seq<char> {
        match self {
            SessionEndView::Closed => "closed"@,
            SessionEndView::Exited { code } => "exited:"@ + signed_decimal(code),
            SessionEndView::IdleExpired => "idle_expired"@,
            SessionEndView::CeilingReached { ceiling } => "ceiling_reached:"@ + ceiling,
            SessionEndView::Interrupted => "interrupted"@,
            SessionEndView::FailedToStart => "failed_to_start"@,
        }
    }
}

/// The disposition that a token stands for, or why it stands for none.
pub open spec fn session_end_named(token: Seq<char>) -> Result<SessionEndView, KernelFault> {
    if starts_with(token, "exited:"@) {
        match parsed_i32(token.skip("exited:"@.len() as int)) {
            Some(code) => Ok(SessionEndView::Exited { code }),
            None => Err(
                KernelFault::Corrupt("stored session disposition has an undecodable status code"@),
            ),
        }
    } else if starts_with(token, "ceiling_reached:"@) {
        let ceiling = token.skip("ceiling_reached:"@.len() as int);
        if label_fault(ceiling) is None {
            Ok(SessionEndView::CeilingReached { ceiling })
        } else {
            Err(KernelFault::Corrupt("stored session disposition has an undecodable ceiling"@))
        }
    } else if token == "closed"@ {
        Ok(SessionEndView::Closed)
    } else if token == "idle_expired"@ {
        Ok(SessionEndView::IdleExpired)
    } else if token == "interrupted"@ {
        Ok(SessionEndView::Interrupted)
    } else if token == "failed_to_start"@ {
        Ok(SessionEndView::FailedToStart)
    } else {
        Err(KernelFault::Corrupt("unknown session disposition "@ + debug_quoted(token)))
    }
}

impl KernelDisposition {
    /// The stable token of the disposition.
    pub fn as_token(&self) -> (r: String)
        ensures
            r@ == self@.token(),
    {
        match self {
            KernelDisposition::Closed => "closed".to_owned(),
            KernelDisposition::Exited { code } => {
                let number = signed_text(*code);
                two("exited:", number.as_str())
            },
            KernelDisposition::IdleExpired => "idle_expired".to_owned(),
            KernelDisposition::CeilingReached { ceiling } => two(
                "ceiling_reached:",
                ceiling.as_str(),
            ),
            KernelDisposition::Interrupted => "interrupted".to_owned(),
            KernelDisposition::FailedToStart => "failed_to_start".to_owned(),
        }
    }

    /// Reads a token.
    pub fn parse(value: &str) -> (r: Result<KernelDisposition, KernelError>)
        ensures
            match session_end_named(value@) {
                Ok(end) => r is Ok && r->Ok_0@ == end,
                Err(e) => kernel_fault(r) == Some(e),
            },
    {
        if let Some(code) = strip_prefix(value, "exited:") {
            return match parse_i32(code.as_str()) {
                Some(code) => Ok(KernelDisposition::Exited { code }),
                None => Err(corrupt("stored session disposition has an undecodable status code")),
            };
        }
        if let Some(ceiling) = strip_prefix(value, "ceiling_reached:") {
            return match KernelLabel::new(ceiling.as_str()) {
                Ok(ceiling) => Ok(KernelDisposition::CeilingReached { ceiling }),
                Err(_) => Err(corrupt("stored session disposition has an undecodable ceiling")),
            };
        }
        if same_text(value, "closed") {
            return Ok(KernelDisposition::Closed);
        }
        if same_text(value, "idle_expired") {
            return Ok(KernelDisposition::IdleExpired);
        }
        if same_text(value, "interrupted") {
            return Ok(KernelDisposition::Interrupted);
        }
        if same_text(value, "failed_to_start") {
            return Ok(KernelDisposition::FailedToStart);
        }
        let name = quoted(value);
        Err(KernelError::Corrupt(two("unknown session disposition ", name.as_str())))
    }

    /// A second copy of the disposition.
    pub fn duplicate(&self) -> (r: KernelDisposition)
        ensures
            r@ == self@,
    {
        match self {
            KernelDisposition::Closed => KernelDisposition::Closed,
            KernelDisposition::Exited { code } => KernelDisposition::Exited { code: *code },
            KernelDisposition::IdleExpired => KernelDisposition::IdleExpired,
            KernelDisposition::CeilingReached { ceiling } => KernelDisposition::CeilingReached {
                ceiling: ceiling.duplicate(),
            },
            KernelDisposition::Interrupted => KernelDisposition::Interrupted,
            KernelDisposition::FailedToStart => KernelDisposition::FailedToStart,
        }
    }
}

/// A disposition of a session is read back from its own token.
pub proof fn law_session_tokens_round_trip(end: SessionEndView)
    requires
        end matches SessionEndView::CeilingReached { ceiling } ==> label_fault(ceiling) is None,
    ensures
        session_end_named(end.token()) == Ok::<SessionEndView, KernelFault>(end),
{
    reveal_strlit("exited:");
    reveal_strlit("ceiling_reached:");
    reveal_strlit("closed");
    reveal_strlit("idle_expired");
    reveal_strlit("interrupted");
    reveal_strlit("failed_to_start");
    let token = end.token();
    match end {
        SessionEndView::Exited { code } => {
            assert(token.subrange(0, 7) =~= "exited:"@);
            assert(token.skip(7) =~= signed_decimal(code));
            lemma_signed_round_trip(code);
        },
        SessionEndView::CeilingReached { ceiling } => {
            assert(token.subrange(0, 16) =~= "ceiling_reached:"@);
            assert(token.skip(16) =~= ceiling);
            assert(token.subrange(0, 7)[0] == 'c');
            assert("exited:"@[0] == 'e');
        },
        _ => {
            assert("exited:"@[0] == 'e');
            assert("ceiling_reached:"@.len() == 16);
            if token.len() >= 7 {
                assert(token.subrange(0, 7)[0] == token[0]);
            }
            assert("closed"@.len() == 6 && "idle_expired"@.len() == 12 && "interrupted"@.len() == 11
                && "failed_to_start"@.len() == 15);
        },
    }
}

/// Something that a checkpoint claims to carry.
#[non_exhaustive]
#[derive(Debug, PartialEq, Eq)]
pub enum RestorableFact {
    /// Named bindings, by number.
    Bindings { count: u64 },
    /// Loaded modules.
    Modules { count: u64 },
    /// A category that the kernel image documents.
    Declared { kind: KernelLabel, count: u64 },
}

/// What a [`RestorableFact`] says.
pub enum CarriedView {
    Bindings { count: u64 },
    Modules { count: u64 },
    Declared { kind: Seq<char>, count: u64 },
}

impl View for RestorableFact {
    type V = CarriedView;

    open spec fn view(&self) -> CarriedView {
        match self {
            RestorableFact::Bindings { count } => CarriedView::Bindings { count: *count },
            RestorableFact::Modules { count } => CarriedView::Modules { count: *count },
            RestorableFact::Declared { kind, count } => CarriedView::Declared {
                kind: kind@,
                count: *count,
            },
        }
    }
}

impl CarriedView {
    pub open spec fn number(self) -> u64 {
        match self {
            CarriedView::Bindings { count } => count,
            CarriedView::Modules { count } => count,
            CarriedView::Declared { count, .. } => count,
        }
    }

    /// The stable token of the declaration.
    pub open spec fn token(self) -> Seq<char> {
        match self {
            CarriedView::Bindings { count } => "bindings:"@ + decimal(count as nat),
            CarriedView::Modules { count } => "modules:"@ + decimal(count as nat),
            CarriedView::Declared { kind, count } => "declared:"@ + kind + ":"@ + decimal(
                count as nat,
            ),
        }
    }
}

/// What is wrong with a restorable declaration.
pub open spec fn carried_fault(fact: CarriedView) -> Option<KernelFault> {
    if fact.number() == 0 {
        Some(
            KernelFault::Validation(
                "a restorable declaration that carries nothing is not a declaration"@,
            ),
        )
    } else {
        None
    }
}

fn counted(head: &str, count: u64) -> (r: String)
    ensures
        r@ == head@ + decimal(count as nat),
{
    let mut out = head.to_owned();
    push_decimal(&mut out, count);
    out
}

fn kinded(head: &str, kind: &KernelLabel, count: u64) -> (r: String)
    ensures
        r@ == head@ + kind@ + ":"@ + decimal(count as nat),
{
    let mut out = head.to_owned();
    out.append(kind.as_str());
    out.append(":");
    push_decimal(&mut out, count);
    out
}

impl RestorableFact {
    pub fn count(&self) -> (r: u64)
        ensures
            r == self@.number(),
    {
        match self {
            RestorableFact::Bindings { count } => *count,
            RestorableFact::Modules { count } => *count,
            RestorableFact::Declared { count, .. } => *count,
        }
    }

    /// The stable token of the declaration.
    pub fn as_token(&self) -> (r: String)
        ensures
            r@ == self@.token(),
    {
        match self {
            RestorableFact::Bindings { count } => counted("bindings:", *count),
            RestorableFact::Modules { count } => counted("modules:", *count),
            RestorableFact::Declared { kind, count } => kinded("declared:", kind, *count),
        }
    }

    /// Checks a declaration.
    pub fn validate(&self) -> (r: Result<(), KernelError>)
        ensures
            kernel_fault(r) == carried_fault(self@),
    {
        if self.count() == 0 {
            return Err(
                validation("a restorable declaration that carries nothing is not a declaration"),
            );
        }
        Ok(())
    }

    /// A second copy of the declaration.
    pub fn duplicate(&self) -> (r: RestorableFact)
        ensures
            r@ == self@,
    {
        match self {
            RestorableFact::Bindings { count } => RestorableFact::Bindings { count: *count },
            RestorableFact::Modules { count } => RestorableFact::Modules { count: *count },
            RestorableFact::Declared { kind, count } => RestorableFact::Declared {
                kind: kind.duplicate(),
                count: *count,
            },
        }
    }
}

/// Something that a checkpoint declares lost. It travels with the checkpoint and comes back from
/// a restore, so nobody gets a restored session without the list of what did not come back.
#[non_exhaustive]
#[derive(Debug, PartialEq, Eq)]
pub enum NonRestorableFact {
    OpenFile { count: u64 },
    NetworkConnection { count: u64 },
    ChildProcess { count: u64 },
    ConcurrentTask { count: u64 },
    /// Handles onto systems that the kernel cannot write down.
    ForeignHandle { kind: KernelLabel, count: u64 },
    /// Values whose type the kernel cannot write down.
    UnserialisableValue { kind: KernelLabel, count: u64 },
    /// Changes outside the working root, which no restore undoes.
    ExternalMutation { kind: KernelLabel },
}

/// What a [`NonRestorableFact`] says.
pub enum LossView {
    OpenFile { count: u64 },
    NetworkConnection { count: u64 },
    ChildProcess { count: u64 },
    ConcurrentTask { count: u64 },
    ForeignHandle { kind: Seq<char>, count: u64 },
    UnserialisableValue { kind: Seq<char>, count: u64 },
    ExternalMutation { kind: Seq<char> },
}

impl View for NonRestorableFact {
    type V = LossView;

    open spec fn view(&self) -> LossView {
        match self {
            NonRestorableFact::OpenFile { count } => LossView::OpenFile { count: *count },
            NonRestorableFact::NetworkConnection { count } => LossView::NetworkConnection {
                count: *count,
            },
            NonRestorableFact::ChildProcess { count } => LossView::ChildProcess { count: *count },
            NonRestorableFact::ConcurrentTask { count } => LossView::ConcurrentTask {
                count: *count,
            },
            NonRestorableFact::ForeignHandle { kind, count } => LossView::ForeignHandle {
                kind: kind@,
                count: *count,
            },
            NonRestorableFact::UnserialisableValue { kind, count } => {
                LossView::UnserialisableValue { kind: kind@, count: *count }
            },
            NonRestorableFact::ExternalMutation { kind } => LossView::ExternalMutation {
                kind: kind@,
            },
        }
    }
}

impl LossView {
    pub open spec fn number(self) -> u64 {
        match self {
            LossView::OpenFile { count } => count,
            LossView::NetworkConnection { count } => count,
            LossView::ChildProcess { count } => count,
            LossView::ConcurrentTask { count } => count,
            LossView::ForeignHandle { count, .. } => count,
            LossView::UnserialisableValue { count, .. } => count,
            LossView::ExternalMutation { .. } => 1,
        }
    }

    /// The stable token of the declaration.
    pub open spec fn token(self) -> Seq<char> {
        match self {
            LossView::OpenFile { count } => "open_file:"@ + decimal(count as nat),
            LossView::NetworkConnection { count } => "network_connection:"@ + decimal(
                count as nat,
            ),
            LossView::ChildProcess { count } => "child_process:"@ + decimal(count as nat),
            LossView::ConcurrentTask { count } => "concurrent_task:"@ + decimal(count as nat),
            LossView::ForeignHandle { kind, count } => "foreign_handle:"@ + kind + ":"@ + decimal(
                count as nat,
            ),
            LossView::UnserialisableValue { kind, count } => "unserialisable_value:"@ + kind + ":"@
                + decimal(count as nat),
            LossView::ExternalMutation { kind } => "external_mutation:"@ + kind,
        }
    }
}

/// What is wrong with a non-restorable declaration.
pub open spec fn loss_fault(fact: LossView) -> Option<KernelFault> {
    if fact.number() == 0 {
        Some(
            KernelFault::Validation(
                "a non-restorable declaration that names nothing is not a declaration"@,
            ),
        )
    } else {
        None
    }
}

impl NonRestorableFact {
    pub fn count(&self) -> (r: u64)
        ensures
            r == self@.number(),
    {
        match self {
            NonRestorableFact::OpenFile { count } => *count,
            NonRestorableFact::NetworkConnection { count } => *count,
            NonRestorableFact::ChildProcess { count } => *count,
            NonRestorableFact::ConcurrentTask { count } => *count,
            NonRestorableFact::ForeignHandle { count, .. } => *count,
            NonRestorableFact::UnserialisableValue { count, .. } => *count,
            NonRestorableFact::ExternalMutation { .. } => 1,
        }
    }

    /// The stable token of the declaration.
    pub fn as_token(&self) -> (r: String)
        ensures
            r@ == self@.token(),
    {
        match self {
            NonRestorableFact::OpenFile { count } => counted("open_file:", *count),
            NonRestorableFact::NetworkConnection { count } => counted(
                "network_connection:",
                *count,
            ),
            NonRestorableFact::ChildProcess { count } => counted("child_process:", *count),
            NonRestorableFact::ConcurrentTask { count } => counted("concurrent_task:", *count),
            NonRestorableFact::ForeignHandle { kind, count } => kinded(
                "foreign_handle:",
                kind,
                *count,
            ),
            NonRestorableFact::UnserialisableValue { kind, count } => kinded(
                "unserialisable_value:",
                kind,
                *count,
            ),
            NonRestorableFact::ExternalMutation { kind } => two(
                "external_mutation:",
                kind.as_str(),
            ),
        }
    }

    /// Checks a declaration.
    pub fn validate(&self) -> (r: Result<(), KernelError>)
        ensures
            kernel_fault(r) == loss_fault(self@),
    {
        if self.count() == 0 {
            return Err(
                validation("a non-restorable declaration that names nothing is not a declaration"),
            );
        }
        Ok(())
    }

    /// A second copy of the declaration.
    pub fn duplicate(&self) -> (r: NonRestorableFact)
        ensures
            r@ == self@,
    {
        match self {
            NonRestorableFact::OpenFile { count } => NonRestorableFact::OpenFile { count: *count },
            NonRestorableFact::NetworkConnection { count } => {
                NonRestorableFact::NetworkConnection { count: *count }
            },
            NonRestorableFact::ChildProcess { count } => NonRestorableFact::ChildProcess {
                count: *count,
            },
            NonRestorableFact::ConcurrentTask { count } => NonRestorableFact::ConcurrentTask {
                count: *count,
            },
            NonRestorableFact::ForeignHandle { kind, count } => NonRestorableFact::ForeignHandle {
                kind: kind.duplicate(),
                count: *count,
            },
            NonRestorableFact::UnserialisableValue { kind, count } => {
                NonRestorableFact::UnserialisableValue { kind: kind.duplicate(), count: *count }
            },
            NonRestorableFact::ExternalMutation { kind } => NonRestorableFact::ExternalMutation {
                kind: kind.duplicate(),
            },
        }
    }
}

/// What each declaration says.
pub open spec fn carried_views(facts: Seq<RestorableFact>) -> Seq<CarriedView> {
    Seq::new(facts.len(), |i: int| facts[i]@)
}

/// What each declaration says.
pub open spec fn loss_views(facts: Seq<NonRestorableFact>) -> Seq<LossView> {
    Seq::new(facts.len(), |i: int| facts[i]@)
}

/// A second copy of declarations.
pub fn copy_losses(facts: &Vec<NonRestorableFact>) -> (r: Vec<NonRestorableFact>)
    ensures
        loss_views(r@) == loss_views(facts@),
{
    let mut out: Vec<NonRestorableFact> = Vec::new();
    let mut i: usize = 0;
    while i < facts.len()
        invariant
            i <= facts@.len(),
            out@.len() == i,
            forall|j: int| 0 <= j < i ==> (#[trigger] out@[j])@ == facts@[j]@,
        decreases facts@.len() - i,
    {
        out.push(facts[i].duplicate());
        i += 1;
    }
    proof {
        assert(loss_views(out@) =~= loss_views(facts@));
    }
    out
}

fn copy_carried(facts: &Vec<RestorableFact>) -> (r: Vec<RestorableFact>)
    ensures
        carried_views(r@) == carried_views(facts@),
{
    let mut out: Vec<RestorableFact> = Vec::new();
    let mut i: usize = 0;
    while i < facts.len()
        invariant
            i <= facts@.len(),
            out@.len() == i,
            forall|j: int| 0 <= j < i ==> (#[trigger] out@[j])@ == facts@[j]@,
        decreases facts@.len() - i,
    {
        out.push(facts[i].duplicate());
        i += 1;
    }
    proof {
        assert(carried_views(out@) =~= carried_views(facts@));
    }
    out
}

/// A named snapshot of session state. It is evidence: what the kernel could write down, what it
/// could not, and which incarnation it came from.
#[derive(Debug, PartialEq, Eq)]
pub struct KernelCheckpointRef {
    pub artifact: ArtifactHandle,
    pub session: KernelSessionId,
    pub generation: KernelGeneration,
    /// The execution after which it was taken; zero before the first.
    pub after_sequence: u64,
    /// The image that produced it.
    pub spec_digest: ArtifactDigest,
    pub taken_at_ms: u64,
    pub restorable: Vec<RestorableFact>,
    pub non_restorable: Vec<NonRestorableFact>,
}

/// What a [`KernelCheckpointRef`] says.
pub struct CheckpointView {
    pub artifact: Seq<char>,
    pub session: Seq<char>,
    pub generation: u64,
    pub after_sequence: u64,
    pub spec_digest: Seq<char>,
    pub taken_at_ms: u64,
    pub restorable: Seq<CarriedView>,
    pub non_restorable: Seq<LossView>,
}

impl View for KernelCheckpointRef {
    type V = CheckpointView;

    open spec fn view(&self) -> CheckpointView {
        CheckpointView {
            artifact: self.artifact@,
            session: self.session@,
            generation: self.generation.0,
            after_sequence: self.after_sequence,
            spec_digest: self.spec_digest@,
            taken_at_ms: self.taken_at_ms,
            restorable: carried_views(self.restorable@),
            non_restorable: loss_views(self.non_restorable@),
        }
    }
}

/// What is wrong with a checkpoint. One that declares nothing never enumerated its losses.
pub open spec fn checkpoint_fault(checkpoint: CheckpointView) -> Option<KernelFault> {
    if checkpoint.generation == 0 {
        generation_fault(checkpoint.generation)
    } else if checkpoint.restorable.len() == 0 && checkpoint.non_restorable.len() == 0 {
        Some(
            KernelFault::Corrupt(
                "a checkpoint that declares neither restorable nor non-restorable state never enumerated its losses"@,
            ),
        )
    } else if checkpoint.restorable.len() > MAX_KERNEL_RESTORABLE_FACTS {
        Some(
            KernelFault::Corrupt(
                "a checkpoint declares more than "@ + decimal(MAX_KERNEL_RESTORABLE_FACTS as nat)
                    + " restorable facts"@,
            ),
        )
    } else if checkpoint.non_restorable.len() > MAX_KERNEL_NON_RESTORABLE_FACTS {
        Some(
            KernelFault::Corrupt(
                "a checkpoint declares more than "@ + decimal(
                    MAX_KERNEL_NON_RESTORABLE_FACTS as nat,
                ) + " non-restorable facts"@,
            ),
        )
    } else if exists|i: int|
        0 <= i < checkpoint.restorable.len() && (#[trigger] checkpoint.restorable[i]).number()
            == 0 {
        Some(
            KernelFault::Corrupt(
                KernelFault::Validation(
                    "a restorable declaration that carries nothing is not a declaration"@,
                ).words(),
            ),
        )
    } else if exists|i: int|
        0 <= i < checkpoint.non_restorable.len() && (#[trigger] checkpoint.non_restorable[i]).number()
            == 0 {
        Some(
            KernelFault::Corrupt(
                KernelFault::Validation(
                    "a non-restorable declaration that names nothing is not a declaration"@,
                ).words(),
            ),
        )
    } else {
        None
    }
}

/// The tokens of declarations.
pub open spec fn carried_tokens(facts: Seq<CarriedView>) -> Seq<Seq<char>> {
    Seq::new(facts.len(), |i: int| facts[i].token())
}

/// The tokens of declarations.
pub open spec fn loss_tokens(facts: Seq<LossView>) -> Seq<Seq<char>> {
    Seq::new(facts.len(), |i: int| facts[i].token())
}

/// The fields that the identity of a checkpoint is taken over.
pub open spec fn checkpoint_fields(checkpoint: CheckpointView) -> Seq<Seq<char>> {
    seq![
        "kernel-checkpoint"@,
        identity_of(checkpoint.artifact),
        checkpoint.artifact,
        checkpoint.session,
        decimal(checkpoint.generation as nat),
        decimal(checkpoint.after_sequence as nat),
        checkpoint.spec_digest,
        decimal(checkpoint.taken_at_ms as nat),
        decimal(checkpoint.restorable.len()),
    ] + carried_tokens(checkpoint.restorable) + seq![decimal(checkpoint.non_restorable.len())]
        + loss_tokens(checkpoint.non_restorable)
}

/// The identity of a checkpoint.
pub open spec fn checkpoint_identity(checkpoint: CheckpointView) -> Seq<char> {
    fields_identity(checkpoint_fields(checkpoint))
}

/// How a run refers to the payload of a checkpoint.
#[derive(Debug, PartialEq, Eq)]
pub struct ArtifactRef {
    pub digest: String,
    pub media_type: String,
    pub size: u64,
    pub kind: String,
    pub producer_run: String,
}

impl KernelCheckpointRef {
    /// Checks a checkpoint that was stored.
    #[verifier::loop_isolation(false)]
    pub fn validate(&self) -> (r: Result<(), KernelError>)
        ensures
            kernel_fault(r) == checkpoint_fault(self@),
    {
        self.generation.validate()?;
        if self.restorable.len() == 0 && self.non_restorable.len() == 0 {
            return Err(
                corrupt(
                    "a checkpoint that declares neither restorable nor non-restorable state never enumerated its losses",
                ),
            );
        }
        if self.restorable.len() > MAX_KERNEL_RESTORABLE_FACTS {
            return Err(
                KernelError::Corrupt(
                    numbered(
                        "a checkpoint declares more than ",
                        MAX_KERNEL_RESTORABLE_FACTS as u64,
                        " restorable facts",
                    ),
                ),
            );
        }
        if self.non_restorable.len() > MAX_KERNEL_NON_RESTORABLE_FACTS {
            return Err(
                KernelError::Corrupt(
                    numbered(
                        "a checkpoint declares more than ",
                        MAX_KERNEL_NON_RESTORABLE_FACTS as u64,
                        " non-restorable facts",
                    ),
                ),
            );
        }
        let mut i: usize = 0;
        while i < self.restorable.len()
            invariant
                i <= self.restorable@.len(),
                forall|j: int| 0 <= j < i ==> (#[trigger] self@.restorable[j]).number() != 0,
            decreases self.restorable@.len() - i,
        {
            assert(self@.restorable[i as int] == self.restorable@[i as int]@);
            corrupted(self.restorable[i].validate())?;
            i += 1;
        }
        let mut k: usize = 0;
        while k < self.non_restorable.len()
            invariant
                k <= self.non_restorable@.len(),
                forall|j: int| 0 <= j < k ==> (#[trigger] self@.non_restorable[j]).number() != 0,
            decreases self.non_restorable@.len() - k,
        {
            assert(self@.non_restorable[k as int] == self.non_restorable@[k as int]@);
            corrupted(self.non_restorable[k].validate())?;
            k += 1;
        }
        Ok(())
    }

    /// The identity of the declaration.
    pub fn digest(&self) -> (r: ArtifactDigest)
        ensures
            r@ == checkpoint_identity(self@),
    {
        let ghost view = self@;
        let ghost head = seq![
            "kernel-checkpoint"@,
            identity_of(view.artifact),
            view.artifact,
            view.session,
            decimal(view.generation as nat),
            decimal(view.after_sequence as nat),
            view.spec_digest,
            decimal(view.taken_at_ms as nat),
            decimal(view.restorable.len()),
        ];
        let mut fields: Vec<String> = Vec::new();
        push_text(&mut fields, "kernel-checkpoint");
        push_text(&mut fields, self.artifact.id().as_str());
        push_text(&mut fields, self.artifact.digest().as_str());
        push_text(&mut fields, self.session.as_str());
        push_number(&mut fields, self.generation.get());
        push_number(&mut fields, self.after_sequence);
        push_text(&mut fields, self.spec_digest.as_str());
        push_number(&mut fields, self.taken_at_ms);
        push_number(&mut fields, self.restorable.len() as u64);
        let ghost carried = carried_tokens(view.restorable);
        proof {
            assert(text_views(fields@) =~= head);
            assert(head + carried.take(0) =~= head);
        }
        let mut i: usize = 0;
        while i < self.restorable.len()
            invariant
                i <= self.restorable@.len(),
                carried == carried_tokens(self@.restorable),
                carried.len() == self.restorable@.len(),
                text_views(fields@) == head + carried.take(i as int),
            decreases self.restorable@.len() - i,
        {
            let token = self.restorable[i].as_token();
            push_text(&mut fields, token.as_str());
            proof {
                assert(carried[i as int] == token@);
                assert(head + carried.take(i + 1) =~= (head + carried.take(i as int)).push(
                    carried[i as int],
                ));
            }
            i += 1;
        }
        push_number(&mut fields, self.non_restorable.len() as u64);
        let ghost middle = head + carried + seq![decimal(view.non_restorable.len())];
        let ghost lost = loss_tokens(view.non_restorable);
        proof {
            assert(carried.take(carried.len() as int) =~= carried);
            assert(text_views(fields@) =~= middle);
            assert(middle + lost.take(0) =~= middle);
        }
        let mut k: usize = 0;
        while k < self.non_restorable.len()
            invariant
                k <= self.non_restorable@.len(),
                lost == loss_tokens(self@.non_restorable),
                lost.len() == self.non_restorable@.len(),
                text_views(fields@) == middle + lost.take(k as int),
            decreases self.non_restorable@.len() - k,
        {
            let token = self.non_restorable[k].as_token();
            push_text(&mut fields, token.as_str());
            proof {
                assert(lost[k as int] == token@);
                assert(middle + lost.take(k + 1) =~= (middle + lost.take(k as int)).push(
                    lost[k as int],
                ));
            }
            k += 1;
        }
        proof {
            assert(lost.take(lost.len() as int) =~= lost);
            assert(text_views(fields@) =~= checkpoint_fields(view));
        }
        digest_of_fields(&fields)
    }

    /// The reference to the payload that a run keeps: the checkpoint's own artifact identity.
    pub fn as_artifact_ref(&self, size: u64, producer_run: &str) -> (r: ArtifactRef)
        ensures
            r.digest@ == self@.artifact,
            r.media_type@ == "application/octet-stream"@,
            r.size == size,
            r.kind@ == "kernel_checkpoint"@,
            r.producer_run@ == producer_run@,
    {
        ArtifactRef {
            digest: self.artifact.digest().as_str().to_owned(),
            media_type: "application/octet-stream".to_owned(),
            size,
            kind: "kernel_checkpoint".to_owned(),
            producer_run: producer_run.to_owned(),
        }
    }

    /// A second copy of the checkpoint.
    pub fn duplicate(&self) -> (r: KernelCheckpointRef)
        ensures
            r@ == self@,
    {
        KernelCheckpointRef {
            artifact: self.artifact.duplicate(),
            session: self.session.duplicate(),
            generation: self.generation,
            after_sequence: self.after_sequence,
            spec_digest: self.spec_digest.duplicate(),
            taken_at_ms: self.taken_at_ms,
            restorable: copy_carried(&self.restorable),
            non_restorable: copy_losses(&self.non_restorable),
        }
    }
}

/// What a restore produced.
#[non_exhaustive]
#[derive(Debug, PartialEq, Eq)]
pub enum KernelRestore {
    /// A new incarnation is live; `lost` is what the checkpoint declared lost.
    Restored {
        session: KernelSessionId,
        generation: KernelGeneration,
        lost: Vec<NonRestorableFact>,
    },
    /// The checkpoint is another image's. Nothing was started.
    SpecMismatch { expected: ArtifactDigest, found: ArtifactDigest },
    /// The image refused the snapshot. Nothing was started.
    Rejected { reason: KernelLabel },
}

/// What an optional checkpoint says.
pub open spec fn optional_checkpoint(checkpoint: Option<KernelCheckpointRef>) -> Option<
    CheckpointView,
> {
    match checkpoint {
        Some(c) => Some(c@),
        None => None,
    }
}

/// The durable account of one settled execution. Written once, never edited.
#[derive(Debug, PartialEq, Eq)]
pub struct KernelExecutionReceipt {
    pub key: KernelExecutionKey,
    /// Position of the execution in its incarnation, from one, without gaps.
    pub sequence: u64,
    pub source_digest: ArtifactDigest,
    pub spec_digest: ArtifactDigest,
    pub bounds: KernelExecutionBounds,
    pub disposition: KernelExecutionDisposition,
    /// The instant that the caller declared.
    pub started_at_ms: u64,
    /// That instant and the time that was measured.
    pub settled_at_ms: u64,
    pub stdout: Option<CaptureRecord>,
    pub stderr: Option<CaptureRecord>,
    /// The checkpoint that was taken right behind the execution, when one was asked for.
    pub checkpoint: Option<KernelCheckpointRef>,
}

/// What a [`KernelExecutionReceipt`] says.
pub struct ExecutionReceiptView {
    pub key: KeyView,
    pub sequence: u64,
    pub source_digest: Seq<char>,
    pub spec_digest: Seq<char>,
    pub bounds: ExecutionBoundsView,
    pub disposition: EndView,
    pub started_at_ms: u64,
    pub settled_at_ms: u64,
    pub stdout: Option<CaptureView>,
    pub stderr: Option<CaptureView>,
    pub checkpoint: Option<CheckpointView>,
}

impl View for KernelExecutionReceipt {
    type V = ExecutionReceiptView;

    open spec fn view(&self) -> ExecutionReceiptView {
        ExecutionReceiptView {
            key: self.key@,
            sequence: self.sequence,
            source_digest: self.source_digest@,
            spec_digest: self.spec_digest@,
            bounds: self.bounds@,
            disposition: self.disposition@,
            started_at_ms: self.started_at_ms,
            settled_at_ms: self.settled_at_ms,
            stdout: capture_view(self.stdout),
            stderr: capture_view(self.stderr),
            checkpoint: optional_checkpoint(self.checkpoint),
        }
    }
}

/// The fields that the identity of a receipt is taken over.
pub open spec fn execution_fields(receipt: ExecutionReceiptView) -> Seq<Seq<char>> {
    seq![
        "kernel-execution"@,
        receipt.key.session,
        decimal(receipt.key.generation as nat),
        receipt.key.execution,
        decimal(receipt.sequence as nat),
        receipt.source_digest,
        receipt.spec_digest,
        decimal(receipt.bounds.deadline_ms as nat),
        decimal(receipt.bounds.stdout_capture_bytes as nat),
        decimal(receipt.bounds.stderr_capture_bytes as nat),
        receipt.disposition.token(),
        decimal(receipt.started_at_ms as nat),
        decimal(receipt.settled_at_ms as nat),
        capture_field(receipt.stdout),
        capture_field(receipt.stderr),
        match receipt.checkpoint {
            Some(checkpoint) => checkpoint_identity(checkpoint),
            None => "absent"@,
        },
    ]
}

/// The identity of a receipt.
pub open spec fn execution_identity(receipt: ExecutionReceiptView) -> Seq<char> {
    fields_identity(execution_fields(receipt))
}

/// The digest of an execution's receipt is taken over bytes that tell apart what ran, under which
/// bounds, when, how it ended and what was captured: two receipts whose encodings are one agree on
/// all of that.
pub proof fn law_encodings_tell_executions_apart(a: ExecutionReceiptView, b: ExecutionReceiptView)
    requires
        a.disposition matches EndView::Raised { error_class } ==> label_fault(
            error_class,
        ) is None,
        b.disposition matches EndView::Raised { error_class } ==> label_fault(
            error_class,
        ) is None,
        capture_addressed(a.stdout),
        capture_addressed(a.stderr),
        capture_addressed(b.stdout),
        capture_addressed(b.stderr),
        texts_frameable(execution_fields(a)),
        texts_frameable(execution_fields(b)),
        framed(text_bytes(execution_fields(a))) == framed(text_bytes(execution_fields(b))),
    ensures
        a.key == b.key,
        a.sequence == b.sequence,
        a.source_digest == b.source_digest,
        a.spec_digest == b.spec_digest,
        a.bounds == b.bounds,
        a.disposition == b.disposition,
        a.started_at_ms == b.started_at_ms,
        a.settled_at_ms == b.settled_at_ms,
        a.stdout == b.stdout,
        a.stderr == b.stderr,
{
    law_text_framing_is_injective(execution_fields(a), execution_fields(b));
    let left = execution_fields(a);
    let right = execution_fields(b);
    assert(left[1] == right[1] && left[2] == right[2] && left[3] == right[3] && left[4] == right[4]
        && left[5] == right[5] && left[6] == right[6] && left[7] == right[7] && left[8]
        == right[8]);
    assert(left[9] == right[9] && left[10] == right[10] && left[11] == right[11] && left[12]
        == right[12]);
    lemma_decimal_injective(a.key.generation as nat, b.key.generation as nat);
    lemma_decimal_injective(a.sequence as nat, b.sequence as nat);
    lemma_decimal_injective(a.bounds.deadline_ms as nat, b.bounds.deadline_ms as nat);
    lemma_decimal_injective(
        a.bounds.stdout_capture_bytes as nat,
        b.bounds.stdout_capture_bytes as nat,
    );
    lemma_decimal_injective(
        a.bounds.stderr_capture_bytes as nat,
        b.bounds.stderr_capture_bytes as nat,
    );
    lemma_decimal_injective(a.started_at_ms as nat, b.started_at_ms as nat);
    lemma_decimal_injective(a.settled_at_ms as nat, b.settled_at_ms as nat);
    law_execution_tokens_round_trip(a.disposition);
    law_execution_tokens_round_trip(b.disposition);
    assert(left[13] == right[13] && left[14] == right[14]);
    law_fields_tell_captures_apart(a.stdout, b.stdout);
    law_fields_tell_captures_apart(a.stderr, b.stderr);
}

/// What is wrong with one capture of a receipt.
pub open spec fn bound_capture_fault(
    capture: Option<CaptureView>,
    bounds: ExecutionBoundsView,
) -> Option<KernelFault> {
    match capture {
        None => None,
        Some(c) => match capture_fault(c) {
            Some(m) => Some(KernelFault::Corrupt(m)),
            None => if c.declared_bound != bounds.capture_bound(c.stream) {
                Some(
                    KernelFault::Corrupt(
                        "a capture record cites a bound the submission did not declare"@,
                    ),
                )
            } else {
                None
            },
        },
    }
}

/// Whether a capture stands under the other stream.
pub open spec fn misplaced(capture: Option<CaptureView>, stream: ProgramStream) -> bool {
    capture is Some && capture->Some_0.stream != stream
}

/// What is wrong with a receipt that was stored beside a digest.
pub open spec fn execution_receipt_fault(
    receipt: ExecutionReceiptView,
    expected: Seq<char>,
) -> Option<KernelFault> {
    first_of(
        as_corrupt(key_fault(receipt.key)),
        first_of(
            as_corrupt(execution_bounds_fault(receipt.bounds)),
            if receipt.sequence == 0 {
                Some(KernelFault::Corrupt("a kernel receipt has no position in its session"@))
            } else if receipt.settled_at_ms < receipt.started_at_ms {
                Some(KernelFault::Corrupt("a kernel receipt settles before it starts"@))
            } else {
                first_of(
                    bound_capture_fault(receipt.stdout, receipt.bounds),
                    first_of(
                        bound_capture_fault(receipt.stderr, receipt.bounds),
                        if misplaced(receipt.stdout, ProgramStream::Stdout) || misplaced(
                            receipt.stderr,
                            ProgramStream::Stderr,
                        ) {
                            Some(
                                KernelFault::Corrupt(
                                    "a kernel receipt binds a capture record to the wrong stream"@,
                                ),
                            )
                        } else {
                            first_of(
                                match receipt.checkpoint {
                                    None => None,
                                    Some(checkpoint) => first_of(
                                        checkpoint_fault(checkpoint),
                                        if checkpoint.session != receipt.key.session
                                            || checkpoint.generation != receipt.key.generation {
                                            Some(
                                                KernelFault::Corrupt(
                                                    "a kernel receipt cites a checkpoint from another incarnation"@,
                                                ),
                                            )
                                        } else {
                                            None
                                        },
                                    ),
                                },
                                if execution_identity(receipt) != expected {
                                    Some(
                                        KernelFault::Corrupt(
                                            "a stored kernel receipt does not address to its own digest"@,
                                        ),
                                    )
                                } else {
                                    None
                                },
                            )
                        },
                    ),
                )
            },
        ),
    )
}

fn check_bound_capture(capture: &Option<CaptureRecord>, bounds: KernelExecutionBounds) -> (r: Result<
    (),
    KernelError,
>)
    ensures
        kernel_fault(r) == bound_capture_fault(capture_view(*capture), bounds@),
{
    match capture {
        None => Ok(()),
        Some(c) => {
            if let Some(message) = c.check() {
                return Err(corrupt(message));
            }
            if c.declared_bound != bounds.capture_bytes(c.stream) {
                return Err(corrupt("a capture record cites a bound the submission did not declare"));
            }
            Ok(())
        },
    }
}

fn stands_wrong(capture: &Option<CaptureRecord>, stream: ProgramStream) -> (r: bool)
    ensures
        r == misplaced(capture_view(*capture), stream),
{
    match capture {
        None => false,
        Some(c) => c.stream != stream,
    }
}

/// The time between two instants, or none when they are the wrong way round.
pub open spec fn duration(from: u64, to: u64) -> u64 {
    if to >= from {
        (to - from) as u64
    } else {
        0
    }
}

impl KernelExecutionReceipt {
    pub fn duration_ms(&self) -> (r: u64)
        ensures
            r == duration(self@.started_at_ms, self@.settled_at_ms),
    {
        self.settled_at_ms.saturating_sub(self.started_at_ms)
    }

    pub fn succeeded(&self) -> (r: bool)
        ensures
            r == (self@.disposition is Completed),
    {
        self.disposition.is_success()
    }

    /// Whether a captured stream lost output to its bound.
    pub fn truncated(&self) -> (r: bool)
        ensures
            r == ((self@.stdout is Some && self@.stdout->Some_0.truncated) || (self@.stderr is Some
                && self@.stderr->Some_0.truncated)),
    {
        let out = match &self.stdout {
            Some(c) => c.truncated,
            None => false,
        };
        let err = match &self.stderr {
            Some(c) => c.truncated,
            None => false,
        };
        out || err
    }

    /// The identity of the receipt's content.
    pub fn digest(&self) -> (r: ArtifactDigest)
        ensures
            r@ == execution_identity(self@),
    {
        let mut fields: Vec<String> = Vec::new();
        push_text(&mut fields, "kernel-execution");
        push_text(&mut fields, self.key.session().as_str());
        push_number(&mut fields, self.key.generation().get());
        push_text(&mut fields, self.key.execution().as_str());
        push_number(&mut fields, self.sequence);
        push_text(&mut fields, self.source_digest.as_str());
        push_text(&mut fields, self.spec_digest.as_str());
        push_number(&mut fields, self.bounds.deadline_ms());
        push_number(&mut fields, self.bounds.stdout_capture_bytes());
        push_number(&mut fields, self.bounds.stderr_capture_bytes());
        push_text(&mut fields, self.disposition.as_token().as_str());
        push_number(&mut fields, self.started_at_ms);
        push_number(&mut fields, self.settled_at_ms);
        push_text(&mut fields, capture_text(&self.stdout).as_str());
        push_text(&mut fields, capture_text(&self.stderr).as_str());
        match &self.checkpoint {
            Some(checkpoint) => push_text(&mut fields, checkpoint.digest().as_str()),
            None => push_text(&mut fields, "absent"),
        }
        proof {
            assert(text_views(fields@) =~= execution_fields(self@));
        }
        digest_of_fields(&fields)
    }

    /// Checks a receipt that was stored, against the digest stored with it and against itself.
    #[verifier::spinoff_prover]
    pub fn verify(&self, expected: &ArtifactDigest) -> (r: Result<(), KernelError>)
        ensures
            kernel_fault(r) == execution_receipt_fault(self@, expected@),
    {
        corrupted(self.key.validate())?;
        corrupted(self.bounds.validate())?;
        if self.sequence == 0 {
            return Err(corrupt("a kernel receipt has no position in its session"));
        }
        if self.settled_at_ms < self.started_at_ms {
            return Err(corrupt("a kernel receipt settles before it starts"));
        }
        check_bound_capture(&self.stdout, self.bounds)?;
        check_bound_capture(&self.stderr, self.bounds)?;
        if stands_wrong(&self.stdout, ProgramStream::Stdout) || stands_wrong(
            &self.stderr,
            ProgramStream::Stderr,
        ) {
            return Err(corrupt("a kernel receipt binds a capture record to the wrong stream"));
        }
        if let Some(checkpoint) = &self.checkpoint {
            checkpoint.validate()?;
            if !checkpoint.session.same(self.key.session()) || checkpoint.generation.get()
                != self.key.generation().get() {
                return Err(corrupt("a kernel receipt cites a checkpoint from another incarnation"));
            }
        }
        if !self.digest().same(expected) {
            return Err(corrupt("a stored kernel receipt does not address to its own digest"));
        }
        Ok(())
    }

    /// A second copy of the receipt.
    pub fn duplicate(&self) -> (r: KernelExecutionReceipt)
        ensures
            r@ == self@,
    {
        KernelExecutionReceipt {
            key: self.key.duplicate(),
            sequence: self.sequence,
            source_digest: self.source_digest.duplicate(),
            spec_digest: self.spec_digest.duplicate(),
            bounds: self.bounds,
            disposition: self.disposition.duplicate(),
            started_at_ms: self.started_at_ms,
            settled_at_ms: self.settled_at_ms,
            stdout: copy_capture(&self.stdout),
            stderr: copy_capture(&self.stderr),
            checkpoint: match &self.checkpoint {
                Some(checkpoint) => Some(checkpoint.duplicate()),
                None => None,
            },
        }
    }
}

/// The durable account of one settled incarnation.
#[derive(Debug, PartialEq, Eq)]
pub struct KernelSessionReceipt {
    pub session: KernelSessionId,
    pub generation: KernelGeneration,
    pub spec_digest: ArtifactDigest,
    pub disposition: KernelDisposition,
    /// The instant that the caller declared.
    pub opened_at_ms: u64,
    pub settled_at_ms: u64,
    /// Executions that the incarnation took, settled or not.
    pub executions: u64,
    /// Bytes that its executions captured in total.
    pub captured_bytes: u64,
}

/// What a [`KernelSessionReceipt`] says.
pub struct SessionReceiptView {
    pub session: Seq<char>,
    pub generation: u64,
    pub spec_digest: Seq<char>,
    pub disposition: SessionEndView,
    pub opened_at_ms: u64,
    pub settled_at_ms: u64,
    pub executions: u64,
    pub captured_bytes: u64,
}

impl View for KernelSessionReceipt {
    type V = SessionReceiptView;

    open spec fn view(&self) -> SessionReceiptView {
        SessionReceiptView {
            session: self.session@,
            generation: self.generation.0,
            spec_digest: self.spec_digest@,
            disposition: self.disposition@,
            opened_at_ms: self.opened_at_ms,
            settled_at_ms: self.settled_at_ms,
            executions: self.executions,
            captured_bytes: self.captured_bytes,
        }
    }
}

/// The fields that the identity of a session receipt is taken over.
pub open spec fn session_fields(receipt: SessionReceiptView) -> Seq<Seq<char>> {
    seq![
        "kernel-session"@,
        receipt.session,
        decimal(receipt.generation as nat),
        receipt.spec_digest,
        receipt.disposition.token(),
        decimal(receipt.opened_at_ms as nat),
        decimal(receipt.settled_at_ms as nat),
        decimal(receipt.executions as nat),
        decimal(receipt.captured_bytes as nat),
    ]
}

/// The identity of a session receipt.
pub open spec fn session_identity(receipt: SessionReceiptView) -> Seq<char> {
    fields_identity(session_fields(receipt))
}

/// The digest of a session receipt is taken over bytes that tell receipts apart: two receipts whose
/// encodings are one are the same receipt.
pub proof fn law_encodings_tell_session_receipts_apart(
    a: SessionReceiptView,
    b: SessionReceiptView,
)
    requires
        a.disposition matches SessionEndView::CeilingReached { ceiling } ==> label_fault(
            ceiling,
        ) is None,
        b.disposition matches SessionEndView::CeilingReached { ceiling } ==> label_fault(
            ceiling,
        ) is None,
        texts_frameable(session_fields(a)),
        texts_frameable(session_fields(b)),
        framed(text_bytes(session_fields(a))) == framed(text_bytes(session_fields(b))),
    ensures
        a == b,
{
    law_text_framing_is_injective(session_fields(a), session_fields(b));
    let left = session_fields(a);
    let right = session_fields(b);
    assert(left[1] == right[1] && left[2] == right[2] && left[3] == right[3] && left[4] == right[4]
        && left[5] == right[5] && left[6] == right[6] && left[7] == right[7] && left[8]
        == right[8]);
    lemma_decimal_injective(a.generation as nat, b.generation as nat);
    lemma_decimal_injective(a.opened_at_ms as nat, b.opened_at_ms as nat);
    lemma_decimal_injective(a.settled_at_ms as nat, b.settled_at_ms as nat);
    lemma_decimal_injective(a.executions as nat, b.executions as nat);
    lemma_decimal_injective(a.captured_bytes as nat, b.captured_bytes as nat);
    law_session_tokens_round_trip(a.disposition);
    law_session_tokens_round_trip(b.disposition);
}

/// What is wrong with a session receipt that was stored beside a digest.
pub open spec fn session_receipt_fault(receipt: SessionReceiptView, expected: Seq<char>) -> Option<
    KernelFault,
> {
    if receipt.generation == 0 {
        as_corrupt(generation_fault(receipt.generation))
    } else if receipt.settled_at_ms < receipt.opened_at_ms {
        Some(KernelFault::Corrupt("a session receipt settles before it opens"@))
    } else if receipt.executions > MAX_KERNEL_SESSION_EXECUTIONS {
        Some(
            KernelFault::Corrupt(
                "a session receipt counts more executions than the contract allows"@,
            ),
        )
    } else if session_identity(receipt) != expected {
        Some(
            KernelFault::Corrupt("a stored session receipt does not address to its own digest"@),
        )
    } else {
        None
    }
}

impl KernelSessionReceipt {
    pub fn duration_ms(&self) -> (r: u64)
        ensures
            r == duration(self@.opened_at_ms, self@.settled_at_ms),
    {
        self.settled_at_ms.saturating_sub(self.opened_at_ms)
    }

    /// The identity of the receipt's content.
    pub fn digest(&self) -> (r: ArtifactDigest)
        ensures
            r@ == session_identity(self@),
    {
        let mut fields: Vec<String> = Vec::new();
        push_text(&mut fields, "kernel-session");
        push_text(&mut fields, self.session.as_str());
        push_number(&mut fields, self.generation.get());
        push_text(&mut fields, self.spec_digest.as_str());
        push_text(&mut fields, self.disposition.as_token().as_str());
        push_number(&mut fields, self.opened_at_ms);
        push_number(&mut fields, self.settled_at_ms);
        push_number(&mut fields, self.executions);
        push_number(&mut fields, self.captured_bytes);
        proof {
            assert(text_views(fields@) =~= session_fields(self@));
        }
        digest_of_fields(&fields)
    }

    /// Checks a receipt that was stored, against the digest stored with it and against itself.
    pub fn verify(&self, expected: &ArtifactDigest) -> (r: Result<(), KernelError>)
        ensures
            kernel_fault(r) == session_receipt_fault(self@, expected@),
    {
        corrupted(self.generation.validate())?;
        if self.settled_at_ms < self.opened_at_ms {
            return Err(corrupt("a session receipt settles before it opens"));
        }
        if self.executions > MAX_KERNEL_SESSION_EXECUTIONS {
            return Err(
                corrupt("a session receipt counts more executions than the contract allows"),
            );
        }
        if !self.digest().same(expected) {
            return Err(corrupt("a stored session receipt does not address to its own digest"));
        }
        Ok(())
    }

    /// A second copy of the receipt.
    pub fn duplicate(&self) -> (r: KernelSessionReceipt)
        ensures
            r@ == self@,
    {
        KernelSessionReceipt {
            session: self.session.duplicate(),
            generation: self.generation,
            spec_digest: self.spec_digest.duplicate(),
            disposition: self.disposition.duplicate(),
            opened_at_ms: self.opened_at_ms,
            settled_at_ms: self.settled_at_ms,
            executions: self.executions,
            captured_bytes: self.captured_bytes,
        }
    }
}

/// What is known of one session.
#[non_exhaustive]
#[derive(Debug, PartialEq, Eq)]
pub enum KernelSessionStatus {
    /// Opened or restored by this handle and not settled.
    Live {
        generation: KernelGeneration,
        process: ProcessIdentity,
        opened_at_ms: u64,
        executions: u64,
    },
    /// Recorded as live, but not by this handle. It never decays into success.
    Uncertain {
        generation: KernelGeneration,
        process: ProcessIdentity,
        opened_at_ms: u64,
        executions: u64,
    },
    Settled(KernelSessionReceipt),
}

/// What a [`KernelSessionStatus`] says.
#[allow(inconsistent_fields)]
pub enum SessionStatusView {
    Live { generation: u64, process: (u32, Seq<char>), opened_at_ms: u64, executions: u64 },
    Uncertain { generation: u64, process: (u32, Seq<char>), opened_at_ms: u64, executions: u64 },
    Settled(SessionReceiptView),
}

impl View for KernelSessionStatus {
    type V = SessionStatusView;

    open spec fn view(&self) -> SessionStatusView {
        match self {
            KernelSessionStatus::Live { generation, process, opened_at_ms, executions } => {
                SessionStatusView::Live {
                    generation: generation.0,
                    process: process@,
                    opened_at_ms: *opened_at_ms,
                    executions: *executions,
                }
            },
            KernelSessionStatus::Uncertain { generation, process, opened_at_ms, executions } => {
                SessionStatusView::Uncertain {
                    generation: generation.0,
                    process: process@,
                    opened_at_ms: *opened_at_ms,
                    executions: *executions,
                }
            },
            KernelSessionStatus::Settled(receipt) => SessionStatusView::Settled(receipt@),
        }
    }
}

impl SessionStatusView {
    pub open spec fn incarnation(self) -> u64 {
        match self {
            SessionStatusView::Live { generation, .. } => generation,
            SessionStatusView::Uncertain { generation, .. } => generation,
            SessionStatusView::Settled(receipt) => receipt.generation,
        }
    }
}

impl KernelSessionStatus {
    pub fn receipt(&self) -> (r: Option<&KernelSessionReceipt>)
        ensures
            match r {
                Some(receipt) => self@ == SessionStatusView::Settled(receipt@),
                None => !(self@ is Settled),
            },
    {
        match self {
            KernelSessionStatus::Settled(receipt) => Some(receipt),
            _ => None,
        }
    }

    pub fn generation(&self) -> (r: KernelGeneration)
        ensures
            r.0 == self@.incarnation(),
    {
        match self {
            KernelSessionStatus::Live { generation, .. } => *generation,
            KernelSessionStatus::Uncertain { generation, .. } => *generation,
            KernelSessionStatus::Settled(receipt) => receipt.generation,
        }
    }

    pub fn is_settled(&self) -> (r: bool)
        ensures
            r == (self@ is Settled),
    {
        match self {
            KernelSessionStatus::Settled(_) => true,
            _ => false,
        }
    }
}

/// What is known of one execution.
#[non_exhaustive]
#[derive(Debug, PartialEq, Eq)]
pub enum KernelExecutionStatus {
    /// Submitted by this handle and not settled.
    InFlight { sequence: u64, started_at_ms: u64 },
    /// Recorded as in flight, but not by this handle.
    Uncertain { sequence: u64, started_at_ms: u64 },
    Settled(KernelExecutionReceipt),
}

/// What a [`KernelExecutionStatus`] says.
pub enum ExecutionStatusView {
    InFlight { sequence: u64, started_at_ms: u64 },
    Uncertain { sequence: u64, started_at_ms: u64 },
    Settled(ExecutionReceiptView),
}

impl View for KernelExecutionStatus {
    type V = ExecutionStatusView;

    open spec fn view(&self) -> ExecutionStatusView {
        match self {
            KernelExecutionStatus::InFlight { sequence, started_at_ms } => {
                ExecutionStatusView::InFlight { sequence: *sequence, started_at_ms: *started_at_ms }
            },
            KernelExecutionStatus::Uncertain { sequence, started_at_ms } => {
                ExecutionStatusView::Uncertain {
                    sequence: *sequence,
                    started_at_ms: *started_at_ms,
                }
            },
            KernelExecutionStatus::Settled(receipt) => ExecutionStatusView::Settled(receipt@),
        }
    }
}

impl KernelExecutionStatus {
    pub fn receipt(&self) -> (r: Option<&KernelExecutionReceipt>)
        ensures
            match r {
                Some(receipt) => self@ == ExecutionStatusView::Settled(receipt@),
                None => !(self@ is Settled),
            },
    {
        match self {
            KernelExecutionStatus::Settled(receipt) => Some(receipt),
            _ => None,
        }
    }

    pub fn is_settled(&self) -> (r: bool)
        ensures
            r == (self@ is Settled),
    {
        match self {
            KernelExecutionStatus::Settled(_) => true,
            _ => false,
        }
    }
}

/// What a reconciliation of a session found out.
#[non_exhaustive]
#[derive(Debug, PartialEq, Eq)]
pub enum KernelReconcileOutcome {
    /// The kernel is alive; nothing was settled.
    StillLive,
    /// The session has a receipt, and every execution that was in flight settled with it.
    Settled { session: KernelSessionReceipt, executions: Vec<KernelExecutionReceipt> },
    /// Nothing could be found out.
    Uncertain,
}

} // verus!
