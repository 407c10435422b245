//! Durable custody of persistent kernel sessions: identity that outlives a process, executions
//! that share state, checkpoints that declare what they could not carry, and settlement that
//! never fabricates success.
//!
//! Kernel state is not durable truth: a checkpoint is evidence and never the authority for a
//! fact. Loss is never silent: what a restore does not bring back is declared, and comes back by
//! value. A kernel receives no credential. A session runs one execution at a time, so the
//! sequence of a receipt is also the order in which state was changed.

pub mod course;
pub mod custody;
pub mod fixture;
pub mod frame;
pub mod receipt;
pub mod snapshot;
pub mod spec;

use crate::program::{ProgramError, ProgramFault, ProgramStream};
use crate::text::{check_line, decimal, line_fault, push_decimal, same_text};
use vstd::prelude::*;

verus! {

/// Largest session identity, in bytes.
pub const MAX_KERNEL_SESSION_ID_BYTES: usize = 128;

/// Largest execution identity, in bytes.
pub const MAX_KERNEL_EXECUTION_ID_BYTES: usize = 128;

/// Largest fragment of one submission, in bytes.
pub const MAX_KERNEL_SOURCE_BYTES: usize = 1048576;

/// Largest capture bound of one stream of one execution, in bytes.
pub const MAX_KERNEL_CAPTURE_BYTES: u64 = 4194304;

/// Largest deadline of one execution, in milliseconds.
pub const MAX_KERNEL_EXECUTION_DEADLINE_MS: u64 = 86_400_000;

/// Largest idle deadline of a session, in milliseconds.
pub const MAX_KERNEL_IDLE_DEADLINE_MS: u64 = 86_400_000;

/// Executions that one incarnation of a session may take.
pub const MAX_KERNEL_SESSION_EXECUTIONS: u64 = 100_000;

/// Largest number of restorable declarations of one checkpoint.
pub const MAX_KERNEL_RESTORABLE_FACTS: usize = 256;

/// Largest number of non-restorable declarations of one checkpoint.
pub const MAX_KERNEL_NON_RESTORABLE_FACTS: usize = 256;

/// Largest checkpoint payload, in bytes.
pub const MAX_KERNEL_CHECKPOINT_BYTES: u64 = 67108864;

/// Largest label, in bytes.
pub const MAX_KERNEL_LABEL_BYTES: usize = 256;

pub const KERNEL_RUNTIME_SCHEMA_MARKER: &'static str = "sophon-sdk.kernel-runtime";

pub const KERNEL_RUNTIME_SCHEMA_VERSION: u32 = 1;

/// The dialect that the local runtime speaks.
pub const LOCAL_KERNEL_PROTOCOL: &'static str = "sophon-sdk.kernel.line/1";

/// Why the custody of kernels refused something.
#[derive(Debug, PartialEq, Eq)]
pub enum KernelError {
    Validation(String),
    SessionNotFound(KernelSessionId),
    ExecutionNotFound(KernelExecutionId),
    Conflict(String),
    Unowned(KernelSessionId),
    NotLive(KernelSessionId),
    Start(String),
    Storage(String),
    Corrupt(String),
}

/// What a [`KernelError`] says.
pub enum KernelFault {
    Validation(Seq<char>),
    SessionNotFound(Seq<char>),
    ExecutionNotFound(Seq<char>),
    Conflict(Seq<char>),
    Unowned(Seq<char>),
    NotLive(Seq<char>),
    Start(Seq<char>),
    Storage(Seq<char>),
    Corrupt(Seq<char>),
}

impl View for KernelError {
    type V = KernelFault;

    open spec fn view(&self) -> KernelFault {
        match self {
            KernelError::Validation(m) => KernelFault::Validation(m@),
            KernelError::SessionNotFound(id) => KernelFault::SessionNotFound(id@),
            KernelError::ExecutionNotFound(id) => KernelFault::ExecutionNotFound(id@),
            KernelError::Conflict(m) => KernelFault::Conflict(m@),
            KernelError::Unowned(id) => KernelFault::Unowned(id@),
            KernelError::NotLive(id) => KernelFault::NotLive(id@),
            KernelError::Start(m) => KernelFault::Start(m@),
            KernelError::Storage(m) => KernelFault::Storage(m@),
            KernelError::Corrupt(m) => KernelFault::Corrupt(m@),
        }
    }
}

impl KernelFault {
    /// The fault in words.
    pub open spec fn words(self) -> Seq<char> {
        match self {
            KernelFault::Validation(m) => "kernel input is invalid: "@ + m,
            KernelFault::SessionNotFound(id) => "kernel session "@ + id
                + " is not known to this authority"@,
            KernelFault::ExecutionNotFound(id) => "kernel execution "@ + id
                + " is not known to this authority"@,
            KernelFault::Conflict(m) => "kernel state conflicts with durable state: "@ + m,
            KernelFault::Unowned(id) => "kernel session "@ + id + " is owned by another handle"@,
            KernelFault::NotLive(id) => "kernel session "@ + id + " is not live"@,
            KernelFault::Start(m) => "kernel could not be started: "@ + m,
            KernelFault::Storage(m) => "kernel storage failed: "@ + m,
            KernelFault::Corrupt(m) => "durable kernel state is corrupt: "@ + m,
        }
    }
}

/// Two texts as one.
pub fn two(head: &str, tail: &str) -> (r: String)
    ensures
        r@ == head@ + tail@,
{
    let mut out = head.to_owned();
    out.append(tail);
    out
}

/// Three texts as one.
pub fn three(head: &str, middle: &str, tail: &str) -> (r: String)
    ensures
        r@ == head@ + middle@ + tail@,
{
    let mut out = head.to_owned();
    out.append(middle);
    out.append(tail);
    out
}

/// A text with a number in it.
pub fn numbered(head: &str, number: u64, tail: &str) -> (r: String)
    ensures
        r@ == head@ + decimal(number as nat) + tail@,
{
    let mut out = head.to_owned();
    push_decimal(&mut out, number);
    out.append(tail);
    out
}

impl KernelError {
    /// The error in words.
    pub fn describe(&self) -> (r: String)
        ensures
            r@ == self@.words(),
    {
        match self {
            KernelError::Validation(m) => two("kernel input is invalid: ", m.as_str()),
            KernelError::SessionNotFound(id) => three(
                "kernel session ",
                id.as_str(),
                " is not known to this authority",
            ),
            KernelError::ExecutionNotFound(id) => three(
                "kernel execution ",
                id.as_str(),
                " is not known to this authority",
            ),
            KernelError::Conflict(m) => two(
                "kernel state conflicts with durable state: ",
                m.as_str(),
            ),
            KernelError::Unowned(id) => three(
                "kernel session ",
                id.as_str(),
                " is owned by another handle",
            ),
            KernelError::NotLive(id) => three("kernel session ", id.as_str(), " is not live"),
            KernelError::Start(m) => two("kernel could not be started: ", m.as_str()),
            KernelError::Storage(m) => two("kernel storage failed: ", m.as_str()),
            KernelError::Corrupt(m) => two("durable kernel state is corrupt: ", m.as_str()),
        }
    }
}

/// The fault that a result carries.
pub open spec fn kernel_fault<T>(r: Result<T, KernelError>) -> Option<KernelFault> {
    match r {
        Ok(_) => None,
        Err(e) => Some(e@),
    }
}

/// The first of two faults.
pub open spec fn first_of(a: Option<KernelFault>, b: Option<KernelFault>) -> Option<KernelFault> {
    match a {
        Some(_) => a,
        None => b,
    }
}

/// A message as a refused input.
pub open spec fn refused(message: Option<Seq<char>>) -> Option<KernelFault> {
    match message {
        Some(m) => Some(KernelFault::Validation(m)),
        None => None,
    }
}

/// A fault in stored state: what was refused, in words, as corruption.
pub open spec fn as_corrupt(fault: Option<KernelFault>) -> Option<KernelFault> {
    match fault {
        Some(e) => Some(KernelFault::Corrupt(e.words())),
        None => None,
    }
}

/// A refused input.
pub fn validation(message: &str) -> (r: KernelError)
    ensures
        r@ == KernelFault::Validation(message@),
{
    KernelError::Validation(message.to_owned())
}

/// Stored state that cannot be trusted.
pub fn corrupt(message: &str) -> (r: KernelError)
    ensures
        r@ == KernelFault::Corrupt(message@),
{
    KernelError::Corrupt(message.to_owned())
}

/// A refused value of stored state.
pub fn corrupted<T>(r: Result<T, KernelError>) -> (out: Result<T, KernelError>)
    ensures
        kernel_fault(out) == as_corrupt(kernel_fault(r)),
        r is Ok ==> out == r,
{
    match r {
        Ok(value) => Ok(value),
        Err(error) => Err(KernelError::Corrupt(error.describe())),
    }
}

/// A refusal of the custody of programs as this custody states it.
pub open spec fn program_refusal(fault: ProgramFault) -> KernelFault {
    match fault {
        ProgramFault::Validation(m) => KernelFault::Validation(m),
        ProgramFault::Corrupt(m) => KernelFault::Corrupt(m),
        other => KernelFault::Storage(other.words()),
    }
}

/// Carries a refusal of the custody of programs over without changing what it says.
pub fn from_program(error: ProgramError) -> (r: KernelError)
    ensures
        r@ == program_refusal(error@),
{
    match error {
        ProgramError::Validation(m) => KernelError::Validation(m),
        ProgramError::Corrupt(m) => KernelError::Corrupt(m),
        other => KernelError::Storage(other.describe()),
    }
}

fn validate_line(label: &str, value: &str, limit: usize) -> (r: Result<(), KernelError>)
    ensures
        kernel_fault(r) == refused(line_fault(label@, value@, limit)),
{
    match check_line(label, value, limit) {
        Some(message) => Err(KernelError::Validation(message)),
        None => Ok(()),
    }
}

/// What is wrong with a session identity.
pub open spec fn session_id_fault(value: Seq<char>) -> Option<KernelFault> {
    refused(line_fault("kernel session id"@, value, MAX_KERNEL_SESSION_ID_BYTES))
}

/// What is wrong with an execution identity.
pub open spec fn execution_id_fault(value: Seq<char>) -> Option<KernelFault> {
    refused(line_fault("kernel execution id"@, value, MAX_KERNEL_EXECUTION_ID_BYTES))
}

/// What is wrong with a label.
pub open spec fn label_fault(value: Seq<char>) -> Option<KernelFault> {
    refused(line_fault("kernel label"@, value, MAX_KERNEL_LABEL_BYTES))
}

/// The durable identity of one session, chosen by the caller before anything is started.
#[derive(Debug, PartialEq, Eq, PartialOrd, Ord, Hash)]
pub struct KernelSessionId(String);

impl View for KernelSessionId {
    type V = Seq<char>;

    closed spec fn view(&self) -> Seq<char> {
        self.0@
    }
}

impl KernelSessionId {
    /// Checks an identity.
    pub fn new(value: &str) -> (r: Result<KernelSessionId, KernelError>)
        ensures
            match session_id_fault(value@) {
                None => r is Ok && r->Ok_0@ == value@,
                Some(e) => kernel_fault(r) == Some(e),
            },
    {
        validate_line("kernel session id", value, MAX_KERNEL_SESSION_ID_BYTES)?;
        Ok(KernelSessionId(value.to_owned()))
    }

    pub fn as_str(&self) -> (r: &str)
        ensures
            r@ == self@,
    {
        self.0.as_str()
    }

    /// A second copy of the identity.
    pub fn duplicate(&self) -> (r: KernelSessionId)
        ensures
            r@ == self@,
    {
        KernelSessionId(self.0.clone())
    }

    /// Whether two identities are the same.
    pub fn same(&self, other: &KernelSessionId) -> (r: bool)
        ensures
            r == (self@ == other@),
    {
        same_text(self.0.as_str(), other.0.as_str())
    }
}

/// The identity of one execution within one session.
#[derive(Debug, PartialEq, Eq, PartialOrd, Ord, Hash)]
pub struct KernelExecutionId(String);

impl View for KernelExecutionId {
    type V = Seq<char>;

    closed spec fn view(&self) -> Seq<char> {
        self.0@
    }
}

impl KernelExecutionId {
    /// Checks an identity.
    pub fn new(value: &str) -> (r: Result<KernelExecutionId, KernelError>)
        ensures
            match execution_id_fault(value@) {
                None => r is Ok && r->Ok_0@ == value@,
                Some(e) => kernel_fault(r) == Some(e),
            },
    {
        validate_line("kernel execution id", value, MAX_KERNEL_EXECUTION_ID_BYTES)?;
        Ok(KernelExecutionId(value.to_owned()))
    }

    pub fn as_str(&self) -> (r: &str)
        ensures
            r@ == self@,
    {
        self.0.as_str()
    }

    /// A second copy of the identity.
    pub fn duplicate(&self) -> (r: KernelExecutionId)
        ensures
            r@ == self@,
    {
        KernelExecutionId(self.0.clone())
    }

    /// Whether two identities are the same.
    pub fn same(&self, other: &KernelExecutionId) -> (r: bool)
        ensures
            r == (self@ == other@),
    {
        same_text(self.0.as_str(), other.0.as_str())
    }
}

/// A bounded name that is no secret.
#[derive(Debug, PartialEq, Eq, PartialOrd, Ord, Hash)]
pub struct KernelLabel(String);

impl View for KernelLabel {
    type V = Seq<char>;

    closed spec fn view(&self) -> Seq<char> {
        self.0@
    }
}

impl KernelLabel {
    #[verifier::type_invariant]
    closed spec fn is_checked(&self) -> bool {
        label_fault(self.0@) is None
    }

    /// Checks a label.
    pub fn new(value: &str) -> (r: Result<KernelLabel, KernelError>)
        ensures
            match label_fault(value@) {
                None => r is Ok && r->Ok_0@ == value@,
                Some(e) => kernel_fault(r) == Some(e),
            },
    {
        validate_line("kernel label", value, MAX_KERNEL_LABEL_BYTES)?;
        Ok(KernelLabel(value.to_owned()))
    }

    pub fn as_str(&self) -> (r: &str)
        ensures
            r@ == self@,
            label_fault(r@) is None,
    {
        proof {
            use_type_invariant(self);
        }
        self.0.as_str()
    }

    /// A second copy of the label.
    pub fn duplicate(&self) -> (r: KernelLabel)
        ensures
            r@ == self@,
    {
        proof {
            use_type_invariant(self);
        }
        KernelLabel(self.0.clone())
    }
}

/// The number of an incarnation of a session. A session survives the death of its process, an
/// incarnation does not: each is given the next number, and no number is given twice.
#[derive(Clone, Copy, Debug, PartialEq, Eq, PartialOrd, Ord, Hash, Structural)]
pub struct KernelGeneration(pub u64);

/// What is wrong with a generation.
pub open spec fn generation_fault(generation: u64) -> Option<KernelFault> {
    if generation == 0 {
        Some(KernelFault::Validation("a kernel generation starts at one"@))
    } else {
        None
    }
}

impl KernelGeneration {
    /// The first incarnation of a session.
    pub fn first() -> (r: KernelGeneration)
        ensures
            r.0 == 1,
    {
        KernelGeneration(1)
    }

    pub fn new(value: u64) -> (r: KernelGeneration)
        ensures
            r.0 == value,
    {
        KernelGeneration(value)
    }

    pub fn get(self) -> (r: u64)
        ensures
            r == self.0,
    {
        self.0
    }

    /// The next incarnation, unless the numbers are used up.
    pub fn next(self) -> (r: Option<KernelGeneration>)
        ensures
            match r {
                Some(g) => g.0 == self.0 + 1,
                None => self.0 == u64::MAX,
            },
    {
        match self.0.checked_add(1) {
            Some(n) => Some(KernelGeneration(n)),
            None => None,
        }
    }

    /// Checks a generation.
    pub fn validate(self) -> (r: Result<(), KernelError>)
        ensures
            kernel_fault(r) == generation_fault(self.0),
    {
        if self.0 == 0 {
            return Err(validation("a kernel generation starts at one"));
        }
        Ok(())
    }
}

/// The address of one execution: session, generation and execution.
#[derive(Debug, PartialEq, Eq, PartialOrd, Ord, Hash)]
pub struct KernelExecutionKey {
    session: KernelSessionId,
    generation: KernelGeneration,
    execution: KernelExecutionId,
}

/// What a [`KernelExecutionKey`] says.
pub struct KeyView {
    pub session: Seq<char>,
    pub generation: u64,
    pub execution: Seq<char>,
}

impl View for KernelExecutionKey {
    type V = KeyView;

    closed spec fn view(&self) -> KeyView {
        KeyView {
            session: self.session@,
            generation: self.generation.0,
            execution: self.execution@,
        }
    }
}

/// What is wrong with a key.
pub open spec fn key_fault(key: KeyView) -> Option<KernelFault> {
    first_of(
        session_id_fault(key.session),
        first_of(execution_id_fault(key.execution), generation_fault(key.generation)),
    )
}

impl KernelExecutionKey {
    pub fn new(
        session: KernelSessionId,
        generation: KernelGeneration,
        execution: KernelExecutionId,
    ) -> (r: Result<KernelExecutionKey, KernelError>)
        ensures
            match generation_fault(generation.0) {
                Some(e) => kernel_fault(r) == Some(e),
                None => r is Ok && r->Ok_0@ == (KeyView {
                    session: session@,
                    generation: generation.0,
                    execution: execution@,
                }),
            },
    {
        generation.validate()?;
        Ok(KernelExecutionKey { session, generation, execution })
    }

    pub fn session(&self) -> (r: &KernelSessionId)
        ensures
            r@ == self@.session,
    {
        &self.session
    }

    pub fn generation(&self) -> (r: KernelGeneration)
        ensures
            r.0 == self@.generation,
    {
        self.generation
    }

    pub fn execution(&self) -> (r: &KernelExecutionId)
        ensures
            r@ == self@.execution,
    {
        &self.execution
    }

    /// Checks a key.
    pub fn validate(&self) -> (r: Result<(), KernelError>)
        ensures
            kernel_fault(r) == key_fault(self@),
    {
        KernelSessionId::new(self.session.as_str())?;
        KernelExecutionId::new(self.execution.as_str())?;
        self.generation.validate()
    }

    /// The key as text: the session, `@`, the generation, `/` and the execution.
    pub fn to_text(&self) -> (r: String)
        ensures
            r@ == self@.session + "@"@ + decimal(self@.generation as nat) + "/"@ + self@.execution,
    {
        let mut out = self.session.as_str().to_owned();
        out.append("@");
        push_decimal(&mut out, self.generation.0);
        out.append("/");
        out.append(self.execution.as_str());
        out
    }

    /// A second copy of the key.
    pub fn duplicate(&self) -> (r: KernelExecutionKey)
        ensures
            r@ == self@,
    {
        KernelExecutionKey {
            session: self.session.duplicate(),
            generation: self.generation,
            execution: self.execution.duplicate(),
        }
    }

    /// Whether two keys are the same.
    pub fn same(&self, other: &KernelExecutionKey) -> (r: bool)
        ensures
            r == (self@ == other@),
    {
        self.session.same(&other.session) && self.generation.0 == other.generation.0
            && self.execution.same(&other.execution)
    }
}

/// Limits that a whole incarnation is held to.
#[derive(Clone, Copy, Debug, PartialEq, Eq, Structural)]
pub struct KernelSessionBounds {
    pub(crate) idle_deadline_ms: u64,
    pub(crate) max_executions: u64,
    pub(crate) max_captured_bytes: u64,
}

/// What [`KernelSessionBounds`] say.
pub struct SessionBoundsView {
    pub idle_deadline_ms: u64,
    pub max_executions: u64,
    pub max_captured_bytes: u64,
}

impl View for KernelSessionBounds {
    type V = SessionBoundsView;

    closed spec fn view(&self) -> SessionBoundsView {
        SessionBoundsView {
            idle_deadline_ms: self.idle_deadline_ms,
            max_executions: self.max_executions,
            max_captured_bytes: self.max_captured_bytes,
        }
    }
}

/// What is wrong with the bounds of a session. Zero is refused everywhere: a session that nothing
/// will settle, or that may do no work, is no configuration.
pub open spec fn session_bounds_fault(bounds: SessionBoundsView) -> Option<KernelFault> {
    if bounds.idle_deadline_ms == 0 {
        Some(KernelFault::Validation("a session must declare a non-zero idle deadline"@))
    } else if bounds.idle_deadline_ms > MAX_KERNEL_IDLE_DEADLINE_MS {
        Some(
            KernelFault::Validation(
                "declared idle deadline exceeds "@ + decimal(MAX_KERNEL_IDLE_DEADLINE_MS as nat)
                    + " ms"@,
            ),
        )
    } else if bounds.max_executions == 0 || bounds.max_executions > MAX_KERNEL_SESSION_EXECUTIONS {
        Some(
            KernelFault::Validation(
                "a session must declare between 1 and "@ + decimal(
                    MAX_KERNEL_SESSION_EXECUTIONS as nat,
                ) + " executions"@,
            ),
        )
    } else if bounds.max_captured_bytes == 0 {
        Some(KernelFault::Validation("a session must declare a non-zero captured-byte ceiling"@))
    } else {
        None
    }
}

impl KernelSessionBounds {
    pub fn new(idle_deadline_ms: u64, max_executions: u64, max_captured_bytes: u64) -> (r: Result<
        KernelSessionBounds,
        KernelError,
    >)
        ensures
            ({
                let bounds = SessionBoundsView {
                    idle_deadline_ms,
                    max_executions,
                    max_captured_bytes,
                };
                match session_bounds_fault(bounds) {
                    Some(e) => kernel_fault(r) == Some(e),
                    None => r is Ok && r->Ok_0@ == bounds,
                }
            }),
    {
        let bounds = KernelSessionBounds { idle_deadline_ms, max_executions, max_captured_bytes };
        bounds.validate()?;
        Ok(bounds)
    }

    pub fn idle_deadline_ms(&self) -> (r: u64)
        ensures
            r == self@.idle_deadline_ms,
    {
        self.idle_deadline_ms
    }

    pub fn max_executions(&self) -> (r: u64)
        ensures
            r == self@.max_executions,
    {
        self.max_executions
    }

    pub fn max_captured_bytes(&self) -> (r: u64)
        ensures
            r == self@.max_captured_bytes,
    {
        self.max_captured_bytes
    }

    /// Checks bounds that were stored.
    pub fn validate(&self) -> (r: Result<(), KernelError>)
        ensures
            kernel_fault(r) == session_bounds_fault(self@),
    {
        if self.idle_deadline_ms == 0 {
            return Err(validation("a session must declare a non-zero idle deadline"));
        }
        if self.idle_deadline_ms > MAX_KERNEL_IDLE_DEADLINE_MS {
            return Err(
                KernelError::Validation(
                    numbered("declared idle deadline exceeds ", MAX_KERNEL_IDLE_DEADLINE_MS, " ms"),
                ),
            );
        }
        if self.max_executions == 0 || self.max_executions > MAX_KERNEL_SESSION_EXECUTIONS {
            return Err(
                KernelError::Validation(
                    numbered(
                        "a session must declare between 1 and ",
                        MAX_KERNEL_SESSION_EXECUTIONS,
                        " executions",
                    ),
                ),
            );
        }
        if self.max_captured_bytes == 0 {
            return Err(validation("a session must declare a non-zero captured-byte ceiling"));
        }
        Ok(())
    }
}

/// Limits of one execution, declared when it is submitted.
#[derive(Clone, Copy, Debug, PartialEq, Eq, Structural)]
pub struct KernelExecutionBounds {
    pub(crate) deadline_ms: u64,
    pub(crate) stdout_capture_bytes: u64,
    pub(crate) stderr_capture_bytes: u64,
}

/// What [`KernelExecutionBounds`] say.
pub struct ExecutionBoundsView {
    pub deadline_ms: u64,
    pub stdout_capture_bytes: u64,
    pub stderr_capture_bytes: u64,
}

impl View for KernelExecutionBounds {
    type V = ExecutionBoundsView;

    closed spec fn view(&self) -> ExecutionBoundsView {
        ExecutionBoundsView {
            deadline_ms: self.deadline_ms,
            stdout_capture_bytes: self.stdout_capture_bytes,
            stderr_capture_bytes: self.stderr_capture_bytes,
        }
    }
}

impl ExecutionBoundsView {
    /// The capture bound of a stream.
    pub open spec fn capture_bound(self, stream: ProgramStream) -> u64 {
        match stream {
            ProgramStream::Stdout => self.stdout_capture_bytes,
            ProgramStream::Stderr => self.stderr_capture_bytes,
        }
    }
}

/// What is wrong with the bounds of an execution.
pub open spec fn execution_bounds_fault(bounds: ExecutionBoundsView) -> Option<KernelFault> {
    if bounds.deadline_ms == 0 {
        Some(KernelFault::Validation("a submission must declare a non-zero deadline"@))
    } else if bounds.deadline_ms > MAX_KERNEL_EXECUTION_DEADLINE_MS {
        Some(
            KernelFault::Validation(
                "declared deadline exceeds "@ + decimal(MAX_KERNEL_EXECUTION_DEADLINE_MS as nat)
                    + " ms"@,
            ),
        )
    } else if bounds.stdout_capture_bytes > MAX_KERNEL_CAPTURE_BYTES {
        Some(
            KernelFault::Validation(
                "declared stdout capture bound exceeds "@ + decimal(
                    MAX_KERNEL_CAPTURE_BYTES as nat,
                ) + " bytes"@,
            ),
        )
    } else if bounds.stderr_capture_bytes > MAX_KERNEL_CAPTURE_BYTES {
        Some(
            KernelFault::Validation(
                "declared stderr capture bound exceeds "@ + decimal(
                    MAX_KERNEL_CAPTURE_BYTES as nat,
                ) + " bytes"@,
            ),
        )
    } else {
        None
    }
}

impl KernelExecutionBounds {
    pub fn new(deadline_ms: u64, stdout_capture_bytes: u64, stderr_capture_bytes: u64) -> (r:
        Result<KernelExecutionBounds, KernelError>)
        ensures
            ({
                let bounds = ExecutionBoundsView {
                    deadline_ms,
                    stdout_capture_bytes,
                    stderr_capture_bytes,
                };
                match execution_bounds_fault(bounds) {
                    Some(e) => kernel_fault(r) == Some(e),
                    None => r is Ok && r->Ok_0@ == bounds,
                }
            }),
    {
        let bounds = KernelExecutionBounds {
            deadline_ms,
            stdout_capture_bytes,
            stderr_capture_bytes,
        };
        bounds.validate()?;
        Ok(bounds)
    }

    pub fn deadline_ms(&self) -> (r: u64)
        ensures
            r == self@.deadline_ms,
    {
        self.deadline_ms
    }

    pub fn stdout_capture_bytes(&self) -> (r: u64)
        ensures
            r == self@.stdout_capture_bytes,
    {
        self.stdout_capture_bytes
    }

    pub fn stderr_capture_bytes(&self) -> (r: u64)
        ensures
            r == self@.stderr_capture_bytes,
    {
        self.stderr_capture_bytes
    }

    pub fn capture_bytes(&self, stream: ProgramStream) -> (r: u64)
        ensures
            r == self@.capture_bound(stream),
    {
        match stream {
            ProgramStream::Stdout => self.stdout_capture_bytes,
            ProgramStream::Stderr => self.stderr_capture_bytes,
        }
    }

    /// Checks bounds that were stored.
    pub fn validate(&self) -> (r: Result<(), KernelError>)
        ensures
            kernel_fault(r) == execution_bounds_fault(self@),
    {
        if self.deadline_ms == 0 {
            return Err(validation("a submission must declare a non-zero deadline"));
        }
        if self.deadline_ms > MAX_KERNEL_EXECUTION_DEADLINE_MS {
            return Err(
                KernelError::Validation(
                    numbered("declared deadline exceeds ", MAX_KERNEL_EXECUTION_DEADLINE_MS, " ms"),
                ),
            );
        }
        if self.stdout_capture_bytes > MAX_KERNEL_CAPTURE_BYTES {
            return Err(
                KernelError::Validation(
                    numbered(
                        "declared stdout capture bound exceeds ",
                        MAX_KERNEL_CAPTURE_BYTES,
                        " bytes",
                    ),
                ),
            );
        }
        if self.stderr_capture_bytes > MAX_KERNEL_CAPTURE_BYTES {
            return Err(
                KernelError::Validation(
                    numbered(
                        "declared stderr capture bound exceeds ",
                        MAX_KERNEL_CAPTURE_BYTES,
                        " bytes",
                    ),
                ),
            );
        }
        Ok(())
    }
}

} // verus!
