//! What the custody of running programs is told in: identities, bounds, captured output and how
//! an execution ended.

pub mod custody;

use crate::artifact::{ArtifactDigest, ArtifactHandle};
use crate::digest::{
    frame_texts, framed, sha256_hex, text_bytes, text_views, texts_frameable,
};
use crate::text::{check_line, line_fault, same_text, signed_decimal, signed_text};
use vstd::prelude::*;

verus! {

pub const PROGRAM_RUNTIME_SCHEMA_MARKER: &'static str = "sophon-sdk.program-runtime";

pub const PROGRAM_RUNTIME_SCHEMA_VERSION: u32 = 1;

/// Largest number of arguments of one program.
pub const MAX_PROGRAM_ARGUMENTS: usize = 256;

/// Largest argument, in bytes.
pub const MAX_PROGRAM_ARGUMENT_BYTES: usize = 65536;

/// Largest number of environment entries of one program.
pub const MAX_PROGRAM_ENVIRONMENT_ENTRIES: usize = 256;

/// Largest name of an environment variable, in bytes.
pub const MAX_PROGRAM_ENVIRONMENT_NAME_BYTES: usize = 256;

/// Largest value of an environment variable, in bytes.
pub const MAX_PROGRAM_ENVIRONMENT_VALUE_BYTES: usize = 65536;

/// Largest execution identity, in bytes.
pub const MAX_EXECUTION_ID_BYTES: usize = 128;

/// Largest owner or handle name, in bytes.
pub const MAX_PROGRAM_LABEL_BYTES: usize = 256;

/// Largest program path, in bytes.
pub const MAX_PROGRAM_PATH_BYTES: usize = 4096;

/// Largest capture bound of one stream, in bytes.
pub const MAX_PROGRAM_CAPTURE_BYTES: u64 = 4194304;

/// Largest deadline, in milliseconds.
pub const MAX_PROGRAM_DEADLINE_MS: u64 = 86_400_000;

/// Why the custody of a program refused something.
#[derive(Debug, PartialEq, Eq)]
pub enum ProgramError {
    Validation(String),
    /// The execution is not known.
    NotFound(String),
    Conflict(String),
    /// The execution is owned by another handle.
    Unowned(String),
    Spawn(String),
    Storage(String),
    Corrupt(String),
}

/// What a [`ProgramError`] says.
pub enum ProgramFault {
    Validation(Seq<char>),
    NotFound(Seq<char>),
    Conflict(Seq<char>),
    Unowned(Seq<char>),
    Spawn(Seq<char>),
    Storage(Seq<char>),
    Corrupt(Seq<char>),
}

impl View for ProgramError {
    type V = ProgramFault;

    open spec fn view(&self) -> ProgramFault {
        match self {
            ProgramError::Validation(m) => ProgramFault::Validation(m@),
            ProgramError::NotFound(m) => ProgramFault::NotFound(m@),
            ProgramError::Conflict(m) => ProgramFault::Conflict(m@),
            ProgramError::Unowned(m) => ProgramFault::Unowned(m@),
            ProgramError::Spawn(m) => ProgramFault::Spawn(m@),
            ProgramError::Storage(m) => ProgramFault::Storage(m@),
            ProgramError::Corrupt(m) => ProgramFault::Corrupt(m@),
        }
    }
}

impl ProgramFault {
    /// The fault in words.
    pub open spec fn words(self) -> Seq<char> {
        match self {
            ProgramFault::Validation(m) => "program input is invalid: "@ + m,
            ProgramFault::NotFound(id) => "program execution "@ + id
                + " is not known to this authority"@,
            ProgramFault::Conflict(m) => "program state conflicts with durable state: "@ + m,
            ProgramFault::Unowned(id) => "program execution "@ + id
                + " is owned by another handle"@,
            ProgramFault::Spawn(m) => "program could not be started: "@ + m,
            ProgramFault::Storage(m) => "program storage failed: "@ + m,
            ProgramFault::Corrupt(m) => "durable program state is corrupt: "@ + m,
        }
    }
}

fn three(head: &str, middle: &str, tail: &str) -> (r: String)
    ensures
        r@ == head@ + middle@ + tail@,
{
    let mut out = head.to_owned();
    out.append(middle);
    out.append(tail);
    out
}

impl ProgramError {
    /// The error in words.
    pub fn describe(&self) -> (r: String)
        ensures
            r@ == self@.words(),
    {
        let r = match self {
            ProgramError::Validation(m) => three("program input is invalid: ", m.as_str(), ""),
            ProgramError::NotFound(id) => three(
                "program execution ",
                id.as_str(),
                " is not known to this authority",
            ),
            ProgramError::Conflict(m) => three(
                "program state conflicts with durable state: ",
                m.as_str(),
                "",
            ),
            ProgramError::Unowned(id) => three(
                "program execution ",
                id.as_str(),
                " is owned by another handle",
            ),
            ProgramError::Spawn(m) => three("program could not be started: ", m.as_str(), ""),
            ProgramError::Storage(m) => three("program storage failed: ", m.as_str(), ""),
            ProgramError::Corrupt(m) => three("durable program state is corrupt: ", m.as_str(), ""),
        };
        proof {
            reveal_strlit("");
            assert(r@ =~= self@.words());
        }
        r
    }
}

/// The fault that a result carries.
pub open spec fn program_fault<T>(r: Result<T, ProgramError>) -> Option<ProgramFault> {
    match r {
        Ok(_) => None,
        Err(e) => Some(e@),
    }
}

/// A refused input.
pub fn validation(message: &str) -> (r: ProgramError)
    ensures
        r@ == ProgramFault::Validation(message@),
{
    ProgramError::Validation(message.to_owned())
}

/// Stored state that cannot be trusted.
pub fn corrupt(message: &str) -> (r: ProgramError)
    ensures
        r@ == ProgramFault::Corrupt(message@),
{
    ProgramError::Corrupt(message.to_owned())
}

/// What is wrong with an execution identity.
pub open spec fn execution_id_fault(value: Seq<char>) -> Option<Seq<char>> {
    line_fault("execution id"@, value, MAX_EXECUTION_ID_BYTES)
}

/// What is wrong with a label.
pub open spec fn program_label_fault(value: Seq<char>) -> Option<Seq<char>> {
    line_fault("program label"@, value, MAX_PROGRAM_LABEL_BYTES)
}

/// The durable identity of one execution, chosen by the caller before anything is started.
#[derive(Debug, PartialEq, Eq, PartialOrd, Ord, Hash)]
pub struct ExecutionId(String);

impl View for ExecutionId {
    type V = Seq<char>;

    closed spec fn view(&self) -> Seq<char> {
        self.0@
    }
}

impl ExecutionId {
    /// Checks an identity.
    pub fn new(value: &str) -> (r: Result<ExecutionId, ProgramError>)
        ensures
            match execution_id_fault(value@) {
                None => r is Ok && r->Ok_0@ == value@,
                Some(m) => program_fault(r) == Some(ProgramFault::Validation(m)),
            },
    {
        match check_line("execution id", value, MAX_EXECUTION_ID_BYTES) {
            None => Ok(ExecutionId(value.to_owned())),
            Some(message) => Err(ProgramError::Validation(message)),
        }
    }

    pub fn as_str(&self) -> (r: &str)
        ensures
            r@ == self@,
    {
        self.0.as_str()
    }

    /// A second copy of the identity.
    pub fn duplicate(&self) -> (r: ExecutionId)
        ensures
            r@ == self@,
    {
        ExecutionId(self.0.clone())
    }

    /// Whether two identities are the same.
    pub fn same(&self, other: &ExecutionId) -> (r: bool)
        ensures
            r == (self@ == other@),
    {
        same_text(self.0.as_str(), other.0.as_str())
    }
}

/// A bounded name: the token of an owner, or the name of a handle.
#[derive(Debug, PartialEq, Eq, PartialOrd, Ord, Hash)]
pub struct ProgramLabel(String);

impl View for ProgramLabel {
    type V = Seq<char>;

    closed spec fn view(&self) -> Seq<char> {
        self.0@
    }
}

impl ProgramLabel {
    /// Checks a label.
    pub fn new(value: &str) -> (r: Result<ProgramLabel, ProgramError>)
        ensures
            match program_label_fault(value@) {
                None => r is Ok && r->Ok_0@ == value@,
                Some(m) => program_fault(r) == Some(ProgramFault::Validation(m)),
            },
    {
        match check_line("program label", value, MAX_PROGRAM_LABEL_BYTES) {
            None => Ok(ProgramLabel(value.to_owned())),
            Some(message) => Err(ProgramError::Validation(message)),
        }
    }

    pub fn as_str(&self) -> (r: &str)
        ensures
            r@ == self@,
    {
        self.0.as_str()
    }

    /// A second copy of the label.
    pub fn duplicate(&self) -> (r: ProgramLabel)
        ensures
            r@ == self@,
    {
        ProgramLabel(self.0.clone())
    }

    /// Whether two labels are the same.
    pub fn same(&self, other: &ProgramLabel) -> (r: bool)
        ensures
            r == (self@ == other@),
    {
        same_text(self.0.as_str(), other.0.as_str())
    }
}

/// Whether a path begins at the root.
pub open spec fn is_absolute(path: Seq<char>) -> bool {
    path.len() > 0 && path[0] == '/'
}

/// Whether a path begins at the root.
pub fn absolute(path: &str) -> (r: bool)
    ensures
        r == is_absolute(path@),
{
    let chars = crate::text::chars_of(path);
    chars.len() > 0 && chars[0] == '/'
}

/// What is wrong with the path of a program.
pub open spec fn program_path_fault(value: Seq<char>) -> Option<Seq<char>> {
    match line_fault("program path"@, value, MAX_PROGRAM_PATH_BYTES) {
        Some(m) => Some(m),
        None => if is_absolute(value) {
            None
        } else {
            Some("program path is not absolute"@)
        },
    }
}

/// The absolute path of a program.
#[derive(Debug, PartialEq, Eq, PartialOrd, Ord, Hash)]
pub struct ProgramPath(String);

impl View for ProgramPath {
    type V = Seq<char>;

    closed spec fn view(&self) -> Seq<char> {
        self.0@
    }
}

impl ProgramPath {
    /// Checks a path.
    pub fn new(value: &str) -> (r: Result<ProgramPath, ProgramError>)
        ensures
            match program_path_fault(value@) {
                None => r is Ok && r->Ok_0@ == value@,
                Some(m) => program_fault(r) == Some(ProgramFault::Validation(m)),
            },
    {
        if let Some(message) = check_line("program path", value, MAX_PROGRAM_PATH_BYTES) {
            return Err(ProgramError::Validation(message));
        }
        if !absolute(value) {
            return Err(validation("program path is not absolute"));
        }
        Ok(ProgramPath(value.to_owned()))
    }

    pub fn as_str(&self) -> (r: &str)
        ensures
            r@ == self@,
    {
        self.0.as_str()
    }

    /// A second copy of the path.
    pub fn duplicate(&self) -> (r: ProgramPath)
        ensures
            r@ == self@,
    {
        ProgramPath(self.0.clone())
    }
}

/// A stream that a program writes to.
#[derive(Clone, Copy, Debug, PartialEq, Eq, Structural)]
pub enum ProgramStream {
    Stdout,
    Stderr,
}

impl ProgramStream {
    pub open spec fn name(self) -> Seq<char> {
        match self {
            ProgramStream::Stdout => "stdout"@,
            ProgramStream::Stderr => "stderr"@,
        }
    }

    pub fn as_str(self) -> (r: &'static str)
        ensures
            r@ == self.name(),
    {
        match self {
            ProgramStream::Stdout => "stdout",
            ProgramStream::Stderr => "stderr",
        }
    }
}

/// What was kept of one stream, and what was written to it.
#[derive(Debug, PartialEq, Eq)]
pub struct CaptureRecord {
    pub stream: ProgramStream,
    pub artifact: ArtifactHandle,
    pub captured_bytes: u64,
    pub produced_bytes: u64,
    pub declared_bound: u64,
    pub truncated: bool,
}

/// What a [`CaptureRecord`] says.
pub struct CaptureView {
    pub stream: ProgramStream,
    pub artifact: Seq<char>,
    pub captured_bytes: u64,
    pub produced_bytes: u64,
    pub declared_bound: u64,
    pub truncated: bool,
}

impl View for CaptureRecord {
    type V = CaptureView;

    open spec fn view(&self) -> CaptureView {
        CaptureView {
            stream: self.stream,
            artifact: self.artifact@,
            captured_bytes: self.captured_bytes,
            produced_bytes: self.produced_bytes,
            declared_bound: self.declared_bound,
            truncated: self.truncated,
        }
    }
}

/// What is wrong with a capture record, in words: its counts must fit together.
pub open spec fn capture_fault(capture: CaptureView) -> Option<Seq<char>> {
    if capture.captured_bytes > capture.produced_bytes {
        Some("a capture record kept more bytes than were written"@)
    } else if capture.captured_bytes > capture.declared_bound {
        Some("a capture record exceeds its own declared bound"@)
    } else if capture.truncated != (capture.produced_bytes > capture.captured_bytes) {
        Some("a capture record's truncation flag disagrees with its own counts"@)
    } else {
        None
    }
}

impl CaptureRecord {
    /// What is wrong with the record.
    pub fn check(&self) -> (r: Option<&'static str>)
        ensures
            crate::text::optional_view(r) == capture_fault(self@),
    {
        if self.captured_bytes > self.produced_bytes {
            return Some("a capture record kept more bytes than were written");
        }
        if self.captured_bytes > self.declared_bound {
            return Some("a capture record exceeds its own declared bound");
        }
        if self.truncated != (self.produced_bytes > self.captured_bytes) {
            return Some("a capture record's truncation flag disagrees with its own counts");
        }
        None
    }

    /// A second copy of the record.
    pub fn duplicate(&self) -> (r: CaptureRecord)
        ensures
            r@ == self@,
    {
        CaptureRecord {
            stream: self.stream,
            artifact: self.artifact.duplicate(),
            captured_bytes: self.captured_bytes,
            produced_bytes: self.produced_bytes,
            declared_bound: self.declared_bound,
            truncated: self.truncated,
        }
    }
}

/// What an optional record says.
pub open spec fn capture_view(capture: Option<CaptureRecord>) -> Option<CaptureView> {
    match capture {
        Some(c) => Some(c@),
        None => None,
    }
}

/// A second copy of an optional record.
pub fn copy_capture(capture: &Option<CaptureRecord>) -> (r: Option<CaptureRecord>)
    ensures
        capture_view(r) == capture_view(*capture),
{
    match capture {
        Some(c) => Some(c.duplicate()),
        None => None,
    }
}

/// The process that an execution was recorded with, and the handle that recorded it.
#[derive(Debug, PartialEq, Eq)]
pub struct ProcessIdentity {
    pid: u32,
    owner: ProgramLabel,
}

impl View for ProcessIdentity {
    type V = (u32, Seq<char>);

    closed spec fn view(&self) -> (u32, Seq<char>) {
        (self.pid, self.owner@)
    }
}

impl ProcessIdentity {
    /// Names a process. Zero names none.
    pub fn new(pid: u32, owner: ProgramLabel) -> (r: Result<ProcessIdentity, ProgramError>)
        ensures
            if pid == 0 {
                program_fault(r) == Some(
                    ProgramFault::Validation("process identity names no process"@),
                )
            } else {
                r is Ok && r->Ok_0@ == (pid, owner@)
            },
    {
        if pid == 0 {
            return Err(validation("process identity names no process"));
        }
        Ok(ProcessIdentity { pid, owner })
    }

    pub fn pid(&self) -> (r: u32)
        ensures
            r == self@.0,
    {
        self.pid
    }

    pub fn owner(&self) -> (r: &ProgramLabel)
        ensures
            r@ == self@.1,
    {
        &self.owner
    }
}

/// What a probe says of a process.
#[derive(Clone, Copy, Debug, PartialEq, Eq, Structural)]
pub enum Liveness {
    Live,
    Gone,
    Unknown,
}

/// What a signal that was sent to a process tells of it: it arrived, nobody has the number,
/// somebody else has it, or nothing is told.
#[derive(Clone, Copy, Debug, PartialEq, Eq, Structural)]
pub enum SignalAnswer {
    Delivered,
    NoSuchProcess,
    NotPermitted,
    Other,
}

/// What a signal tells of a process. A process that belongs to somebody else exists.
pub open spec fn liveness_told(answer: SignalAnswer) -> Liveness {
    match answer {
        SignalAnswer::Delivered => Liveness::Live,
        SignalAnswer::NoSuchProcess => Liveness::Gone,
        SignalAnswer::NotPermitted => Liveness::Live,
        SignalAnswer::Other => Liveness::Unknown,
    }
}

/// A process is taken for gone only where nobody has its number, and for live where the signal
/// arrived or met somebody else's process; where nothing is told, nothing is known.
pub proof fn law_only_missing_processes_are_gone(answer: SignalAnswer)
    ensures
        liveness_told(answer) is Gone <==> answer is NoSuchProcess,
        liveness_told(answer) is Live <==> answer is Delivered || answer is NotPermitted,
        liveness_told(answer) is Unknown <==> answer is Other,
{
}

/// Reads what a signal tells of a process.
pub fn liveness_of(answer: SignalAnswer) -> (r: Liveness)
    ensures
        r == liveness_told(answer),
{
    match answer {
        SignalAnswer::Delivered => Liveness::Live,
        SignalAnswer::NoSuchProcess => Liveness::Gone,
        SignalAnswer::NotPermitted => Liveness::Live,
        SignalAnswer::Other => Liveness::Unknown,
    }
}

/// How an execution ended.
#[derive(Clone, Copy, Debug, PartialEq, Eq, Structural)]
pub enum ExitDisposition {
    Exited { code: i32 },
    Signalled { signal: i32 },
    Cancelled,
    TimedOut,
    /// It was running when its owner died, and the process is gone.
    Interrupted,
}

impl ExitDisposition {
    /// The stable token of the disposition.
    pub open spec fn token(self) -> Seq<char> {
        match self {
            ExitDisposition::Exited { code } => "exited:"@ + signed_decimal(code),
            ExitDisposition::Signalled { signal } => "signalled:"@ + signed_decimal(signal),
            ExitDisposition::Cancelled => "cancelled"@,
            ExitDisposition::TimedOut => "timed_out"@,
            ExitDisposition::Interrupted => "interrupted"@,
        }
    }

    /// The stable token of the disposition.
    pub fn as_token(self) -> (r: String)
        ensures
            r@ == self.token(),
    {
        match self {
            ExitDisposition::Exited { code } => {
                let mut out = "exited:".to_owned();
                out.append(signed_text(code).as_str());
                out
            },
            ExitDisposition::Signalled { signal } => {
                let mut out = "signalled:".to_owned();
                out.append(signed_text(signal).as_str());
                out
            },
            ExitDisposition::Cancelled => "cancelled".to_owned(),
            ExitDisposition::TimedOut => "timed_out".to_owned(),
            ExitDisposition::Interrupted => "interrupted".to_owned(),
        }
    }
}

/// How a process ended by itself: by a signal, or with a status.
pub open spec fn ended_by(signal: Option<i32>, code: Option<i32>) -> ExitDisposition {
    match (signal, code) {
        (Some(signal), _) => ExitDisposition::Signalled { signal },
        (None, Some(code)) => ExitDisposition::Exited { code },
        (None, None) => ExitDisposition::Exited { code: (-1int) as i32 },
    }
}

/// A process that a signal ended is told by that signal, whatever status it left; any other one by
/// its status, which counts as a failure where there is none. No process that ended by itself is
/// told as cancelled, timed out or interrupted.
pub proof fn law_ends_name_the_signal_or_the_status(signal: Option<i32>, code: Option<i32>)
    ensures
        signal matches Some(n) ==> ended_by(signal, code) == (ExitDisposition::Signalled {
            signal: n,
        }),
        signal is None ==> ended_by(signal, code) is Exited,
        signal is None && code is Some ==> ended_by(signal, code) == (ExitDisposition::Exited {
            code: code->Some_0,
        }),
        ended_by(None, None) != (ExitDisposition::Exited { code: 0 }),
{
}

/// Says how a process ended by itself.
pub fn disposition_of(signal: Option<i32>, code: Option<i32>) -> (r: ExitDisposition)
    ensures
        r == ended_by(signal, code),
{
    match (signal, code) {
        (Some(signal), _) => ExitDisposition::Signalled { signal },
        (None, Some(code)) => ExitDisposition::Exited { code },
        (None, None) => ExitDisposition::Exited { code: -1 },
    }
}

/// The identity of a list of fields: the digest of their canonical encoding.
pub open spec fn fields_identity(fields: Seq<Seq<char>>) -> Seq<char> {
    sha256_hex(framed(text_bytes(fields)))
}

/// The identity of a list of fields.
pub fn digest_of_fields(fields: &Vec<String>) -> (r: ArtifactDigest)
    ensures
        r@ == fields_identity(text_views(fields@)),
        texts_frameable(text_views(fields@)),
{
    let bytes = frame_texts(fields);
    ArtifactDigest::of(bytes.as_slice())
}

/// Adds a text to a list of fields.
pub fn push_text(fields: &mut Vec<String>, text: &str)
    ensures
        text_views(final(fields)@) == text_views(old(fields)@).push(text@),
{
    let ghost before = text_views(fields@);
    fields.push(text.to_owned());
    proof {
        assert(text_views(fields@) =~= before.push(text@));
    }
}

/// Adds a number to a list of fields.
pub fn push_number(fields: &mut Vec<String>, n: u64)
    ensures
        text_views(final(fields)@) == text_views(old(fields)@).push(
            crate::text::decimal(n as nat),
        ),
{
    let text = crate::text::decimal_text(n);
    push_text(fields, text.as_str());
}

} // verus!
