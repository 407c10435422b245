//! The custody of one-shot executions: what is stored, how it is read back, and how it settles.

use crate::artifact::provenance::{
    label_fault, ArtifactLabel, ArtifactMediaType, ArtifactProvenance, ArtifactProvenanceKind,
    ArtifactRetention, ArtifactWrite, ProvenanceView, WriteView,
};
use crate::artifact::vault::{put_on, ArtifactVault};
use crate::artifact::{
    identity_of, is_sha256, law_identities_name_one_digest, ArtifactDigest, ArtifactError,
    ArtifactFault, ArtifactHandle,
};
use crate::digest::{
    framed, law_text_framing_is_injective, sha256_hex, text_bytes, text_views, texts_frameable,
};
use crate::program::{
    capture_fault, capture_view, copy_capture, corrupt, digest_of_fields, execution_id_fault,
    fields_identity, program_fault, program_label_fault, push_number, push_text, validation,
    CaptureRecord, CaptureView, ExecutionId, ExitDisposition, Liveness, ProcessIdentity,
    ProgramError, ProgramFault, ProgramLabel, ProgramPath, ProgramStream, MAX_PROGRAM_CAPTURE_BYTES,
    MAX_PROGRAM_DEADLINE_MS,
};
use crate::text::{
    debug_quoted, decimal, is_digit, lemma_decimal_digits, lemma_decimal_injective,
    lemma_signed_round_trip, push_decimal, quoted, same_text, signed_decimal,
};
use vstd::prelude::*;

verus! {

/// Limits that one execution is held to.
#[derive(Clone, Copy, Debug, PartialEq, Eq, Structural)]
pub struct ProgramBounds {
    pub deadline_ms: u64,
    pub stdout_capture_bytes: u64,
    pub stderr_capture_bytes: u64,
}

/// What is wrong with bounds, in words.
pub open spec fn program_bounds_fault(bounds: ProgramBounds) -> Option<Seq<char>> {
    if bounds.deadline_ms == 0 {
        Some("a launch must declare a non-zero deadline"@)
    } else if bounds.deadline_ms > MAX_PROGRAM_DEADLINE_MS {
        Some("declared deadline exceeds "@ + decimal(MAX_PROGRAM_DEADLINE_MS as nat) + " ms"@)
    } else if bounds.stdout_capture_bytes > MAX_PROGRAM_CAPTURE_BYTES {
        Some(
            "declared stdout capture bound exceeds "@ + decimal(MAX_PROGRAM_CAPTURE_BYTES as nat)
                + " bytes"@,
        )
    } else if bounds.stderr_capture_bytes > MAX_PROGRAM_CAPTURE_BYTES {
        Some(
            "declared stderr capture bound exceeds "@ + decimal(MAX_PROGRAM_CAPTURE_BYTES as nat)
                + " bytes"@,
        )
    } else {
        None
    }
}

fn limit_message(head: &str, limit: u64, tail: &str) -> (r: String)
    ensures
        r@ == head@ + decimal(limit as nat) + tail@,
{
    let mut out = head.to_owned();
    push_decimal(&mut out, limit);
    out.append(tail);
    out
}

impl ProgramBounds {
    pub open spec fn capture_bound(self, stream: ProgramStream) -> u64 {
        match stream {
            ProgramStream::Stdout => self.stdout_capture_bytes,
            ProgramStream::Stderr => self.stderr_capture_bytes,
        }
    }

    pub fn capture_bytes(&self, stream: ProgramStream) -> (r: u64)
        ensures
            r == self.capture_bound(stream),
    {
        match stream {
            ProgramStream::Stdout => self.stdout_capture_bytes,
            ProgramStream::Stderr => self.stderr_capture_bytes,
        }
    }

    /// Checks bounds that were stored.
    pub fn validate(&self) -> (r: Result<(), ProgramError>)
        ensures
            program_fault(r) == match program_bounds_fault(*self) {
                Some(m) => Some(ProgramFault::Validation(m)),
                None => None,
            },
    {
        if self.deadline_ms == 0 {
            return Err(validation("a launch must declare a non-zero deadline"));
        }
        if self.deadline_ms > MAX_PROGRAM_DEADLINE_MS {
            return Err(
                ProgramError::Validation(
                    limit_message("declared deadline exceeds ", MAX_PROGRAM_DEADLINE_MS, " ms"),
                ),
            );
        }
        if self.stdout_capture_bytes > MAX_PROGRAM_CAPTURE_BYTES {
            return Err(
                ProgramError::Validation(
                    limit_message(
                        "declared stdout capture bound exceeds ",
                        MAX_PROGRAM_CAPTURE_BYTES,
                        " bytes",
                    ),
                ),
            );
        }
        if self.stderr_capture_bytes > MAX_PROGRAM_CAPTURE_BYTES {
            return Err(
                ProgramError::Validation(
                    limit_message(
                        "declared stderr capture bound exceeds ",
                        MAX_PROGRAM_CAPTURE_BYTES,
                        " bytes",
                    ),
                ),
            );
        }
        Ok(())
    }
}

/// The first bytes of a stream, as far as a bound allows, and the number of all its bytes.
#[derive(Debug, PartialEq, Eq)]
pub struct BoundedCapture {
    pub content: Vec<u8>,
    pub produced_bytes: u64,
}

/// What a [`BoundedCapture`] says.
pub struct BoundedView {
    pub content: Seq<u8>,
    pub produced_bytes: u64,
}

impl View for BoundedCapture {
    type V = BoundedView;

    open spec fn view(&self) -> BoundedView {
        BoundedView { content: self.content@, produced_bytes: self.produced_bytes }
    }
}

/// A count that stops at its bound.
pub open spec fn saturated_count(count: u64, more: nat) -> u64 {
    if count + more > u64::MAX {
        u64::MAX
    } else {
        (count + more) as u64
    }
}

/// A capture after more bytes were written: as many of them are kept as there is room for, and
/// all are counted.
pub open spec fn absorbed(capture: BoundedView, bytes: Seq<u8>, bound: u64) -> BoundedView {
    let room: int = bound - capture.content.len();
    BoundedView {
        content: if room <= 0 {
            capture.content
        } else if bytes.len() <= room {
            capture.content + bytes
        } else {
            capture.content + bytes.take(room)
        },
        produced_bytes: saturated_count(capture.produced_bytes, bytes.len()),
    }
}

impl BoundedCapture {
    /// A capture of nothing.
    pub fn new() -> (r: BoundedCapture)
        ensures
            r@.content == Seq::<u8>::empty(),
            r@.produced_bytes == 0,
    {
        BoundedCapture { content: Vec::new(), produced_bytes: 0 }
    }

    /// Takes in the bytes from `from` up to `to`. Reading goes on past the bound, so that the
    /// program is never stopped by a full pipe and the count stays honest.
    pub fn absorb(&mut self, bytes: &[u8], from: usize, to: usize, bound: u64)
        requires
            from <= to <= bytes@.len(),
        ensures
            final(self)@ == absorbed(
                old(self)@,
                bytes@.subrange(from as int, to as int),
                bound,
            ),
    {
        let ghost before = self@;
        let ghost part = bytes@.subrange(from as int, to as int);
        let length: usize = to - from;
        self.produced_bytes = self.produced_bytes.saturating_add(length as u64);
        let kept: u64 = self.content.len() as u64;
        let room: u64 = bound.saturating_sub(kept);
        let taken: usize = if (length as u64) <= room {
            length
        } else {
            room as usize
        };
        let mut i: usize = 0;
        proof {
            assert(before.content + part.take(0) =~= before.content);
        }
        while i < taken
            invariant
                i <= taken <= length,
                from + length == to <= bytes@.len(),
                part == bytes@.subrange(from as int, to as int),
                self.content@ == before.content + part.take(i as int),
                self.produced_bytes == saturated_count(before.produced_bytes, part.len()),
            decreases taken - i,
        {
            self.content.push(bytes[from + i]);
            proof {
                assert(part.take(i + 1) =~= part.take(i as int).push(bytes@[from + i]));
                assert(self.content@ =~= before.content + part.take(i + 1));
            }
            i += 1;
        }
        proof {
            if taken == length {
                assert(part.take(taken as int) =~= part);
            }
            assert(self@.content =~= absorbed(before, part, bound).content);
        }
    }
}

/// Reading a stream in pieces keeps and counts what reading it at once would.
pub proof fn law_captures_do_not_depend_on_pieces(
    capture: BoundedView,
    first: Seq<u8>,
    second: Seq<u8>,
    bound: u64,
)
    ensures
        absorbed(absorbed(capture, first, bound), second, bound) == absorbed(
            capture,
            first + second,
            bound,
        ),
{
    let once = absorbed(capture, first + second, bound);
    let twice = absorbed(absorbed(capture, first, bound), second, bound);
    let room: int = bound - capture.content.len();
    if room > 0 {
        if first.len() <= room {
            if (first + second).len() > room {
                assert((first + second).take(room) =~= first + second.take(room - first.len()));
            }
        } else {
            assert((first + second).take(room) =~= first.take(room));
        }
    }
    assert(once.content =~= twice.content);
}

/// A capture that began with nothing never keeps more than its bound, nor more than was written.
pub proof fn law_captures_keep_within_their_bound(capture: BoundedView, bytes: Seq<u8>, bound: u64)
    requires
        capture.content.len() <= bound,
        capture.content.len() <= capture.produced_bytes,
    ensures
        absorbed(capture, bytes, bound).content.len() <= bound,
        absorbed(capture, bytes, bound).content.len() <= absorbed(
            capture,
            bytes,
            bound,
        ).produced_bytes,
{
}

/// A capture keeps the beginning of what was written, as much of it as its bound allows, and counts
/// all of it.
pub proof fn law_captures_keep_the_beginning(capture: BoundedView, bytes: Seq<u8>, bound: u64)
    requires
        capture.content.len() <= bound,
    ensures
        ({
            let after = absorbed(capture, bytes, bound);
            let whole = capture.content + bytes;
            &&& after.content.len() == whole.len() || after.content.len() == bound
            &&& after.content.len() <= whole.len()
            &&& after.content == whole.take(after.content.len() as int)
            &&& capture.produced_bytes + bytes.len() <= u64::MAX ==> after.produced_bytes
                == capture.produced_bytes + bytes.len()
        }),
{
    let after = absorbed(capture, bytes, bound);
    let whole = capture.content + bytes;
    assert(after.content =~= whole.take(after.content.len() as int));
}

/// The record of a captured stream names its stream, its artifact, its bound and both counts, and
/// is truncated exactly where more was produced than was kept.
pub proof fn law_captures_tell_what_was_cut(
    stream: ProgramStream,
    artifact: Seq<char>,
    capture: BoundedView,
    bound: u64,
)
    requires
        capture.content.len() <= u64::MAX,
    ensures
        ({
            let record = capture_of(stream, artifact, capture, bound);
            &&& record.stream == stream
            &&& record.artifact == artifact
            &&& record.captured_bytes == capture.content.len()
            &&& record.produced_bytes == capture.produced_bytes
            &&& record.declared_bound == bound
            &&& record.truncated <==> record.produced_bytes > record.captured_bytes
        }),
{
}

/// The record of a captured stream.
pub open spec fn capture_of(
    stream: ProgramStream,
    artifact: Seq<char>,
    capture: BoundedView,
    bound: u64,
) -> CaptureView {
    CaptureView {
        stream,
        artifact,
        captured_bytes: capture.content.len() as u64,
        produced_bytes: capture.produced_bytes,
        declared_bound: bound,
        truncated: capture.produced_bytes > capture.content.len(),
    }
}

/// What is wrong with binding a captured stream to an artifact, in words.
pub open spec fn binding_fault(
    stream: ProgramStream,
    artifact: Seq<char>,
    capture: BoundedView,
    bound: u64,
) -> Option<Seq<char>> {
    if sha256_hex(capture.content) != artifact {
        Some("the output sink bound a captured stream to content that is not that stream"@)
    } else {
        capture_fault(capture_of(stream, artifact, capture, bound))
    }
}

/// Binds a captured stream to the artifact that a sink stored it as.
pub fn bind_capture(
    stream: ProgramStream,
    handle: ArtifactHandle,
    capture: &BoundedCapture,
    bound: u64,
) -> (r: Result<CaptureRecord, ProgramError>)
    ensures
        match binding_fault(stream, handle@, capture@, bound) {
            Some(m) => program_fault(r) == Some(ProgramFault::Corrupt(m)),
            None => r is Ok && r->Ok_0@ == capture_of(stream, handle@, capture@, bound),
        },
{
    if !handle.addresses(capture.content.as_slice()) {
        return Err(
            corrupt("the output sink bound a captured stream to content that is not that stream"),
        );
    }
    let kept: u64 = capture.content.len() as u64;
    let record = CaptureRecord {
        stream,
        artifact: handle,
        captured_bytes: kept,
        produced_bytes: capture.produced_bytes,
        declared_bound: bound,
        truncated: capture.produced_bytes > kept,
    };
    match record.check() {
        Some(message) => Err(corrupt(message)),
        None => Ok(record),
    }
}

/// A refusal of the vault as the custody of programs states it.
pub open spec fn from_artifact(fault: ArtifactFault) -> ProgramFault {
    match fault {
        ArtifactFault::Validation(m) => ProgramFault::Validation(m),
        ArtifactFault::Corrupt(m) => ProgramFault::Corrupt(m),
        other => ProgramFault::Storage(other.words()),
    }
}

/// Carries a refusal of the vault over.
pub fn artifact_error(error: ArtifactError) -> (r: ProgramError)
    ensures
        r@ == from_artifact(error@),
{
    match error {
        ArtifactError::Validation(m) => ProgramError::Validation(m),
        ArtifactError::Corrupt(m) => ProgramError::Corrupt(m),
        other => ProgramError::Storage(other.describe()),
    }
}

/// Binds captured output into a vault, as a record of the operation that wrote it.
pub struct ArtifactVaultOutputSink<V> {
    vault: V,
    producer: ArtifactLabel,
}

/// How captured output is declared to the vault.
pub open spec fn output_write(
    producer: Seq<char>,
    execution: Seq<char>,
    stream: ProgramStream,
    now_ms: u64,
) -> WriteView {
    WriteView {
        media_type: "application/octet-stream"@,
        retention: ArtifactRetention::WhileProducerLives,
        retain_until_ms: None,
        provenance: ProvenanceView {
            kind: ArtifactProvenanceKind::OperationRecord,
            producer_run: producer,
            iteration: 0,
            operation: execution + "."@ + stream.name(),
            recorded_at_ms: now_ms,
            observation: None,
        },
        expected_id: None,
    }
}

impl<V: ArtifactVault> ArtifactVaultOutputSink<V> {
    pub closed spec fn vault_of(&self) -> V {
        self.vault
    }

    pub closed spec fn producer_of(&self) -> Seq<char> {
        self.producer@
    }

    pub fn new(vault: V, producer: ArtifactLabel) -> (r: ArtifactVaultOutputSink<V>)
        ensures
            r.vault_of() == vault,
            r.producer_of() == producer@,
    {
        ArtifactVaultOutputSink { vault, producer }
    }

    pub fn vault(&self) -> (r: &V)
        ensures
            *r == self.vault_of(),
    {
        &self.vault
    }

    /// Stores what an execution wrote to a stream.
    pub fn store(
        &mut self,
        execution: &ExecutionId,
        stream: ProgramStream,
        content: &[u8],
        now_ms: u64,
    ) -> (r: Result<ArtifactHandle, ProgramError>)
        ensures
            old(self).vault_of().lawful() ==> {
                let operation = execution@ + "."@ + stream.name();
                let put = put_on(
                    old(self).vault_of().shelf(),
                    content@,
                    output_write(old(self).producer_of(), execution@, stream, now_ms),
                    now_ms,
                );
                &&& final(self).vault_of().lawful()
                &&& final(self).producer_of() == old(self).producer_of()
                &&& match label_fault(operation) {
                    Some(e) => program_fault(r) == Some(from_artifact(e)) && final(
                        self).vault_of() == old(self).vault_of(),
                    None => final(self).vault_of().shelf() == put.1 && match put.0 {
                        Ok((digest, _)) => r is Ok && r->Ok_0@ == digest,
                        Err(e) => program_fault(r) == Some(from_artifact(e)),
                    },
                }
            },
    {
        let mut name = execution.as_str().to_owned();
        name.append(".");
        name.append(stream.as_str());
        let operation = match ArtifactLabel::new(name.as_str()) {
            Ok(label) => label,
            Err(error) => {
                return Err(artifact_error(error));
            },
        };
        let provenance = match ArtifactProvenance::produced(
            ArtifactProvenanceKind::OperationRecord,
            self.producer.duplicate(),
            0,
            operation,
            now_ms,
        ) {
            Ok(provenance) => provenance,
            Err(error) => {
                return Err(artifact_error(error));
            },
        };
        let write = ArtifactWrite::new(
            ArtifactMediaType::octet_stream(),
            ArtifactRetention::WhileProducerLives,
            provenance,
        );
        match self.vault.put(content, &write, now_ms) {
            Ok(receipt) => Ok(receipt.handle),
            Err(error) => Err(artifact_error(error)),
        }
    }
}

/// Everything durable about a launch that a receipt needs: digests and names, never arguments,
/// values or secrets.
#[derive(Debug, PartialEq, Eq)]
pub struct LaunchRecord {
    pub program: ProgramPath,
    pub arguments_digest: ArtifactDigest,
    pub environment_digest: ArtifactDigest,
    pub working_root: String,
    pub credential_handles: Vec<String>,
    pub bounds: ProgramBounds,
}

/// What a [`LaunchRecord`] says.
pub struct LaunchView {
    pub program: Seq<char>,
    pub arguments_digest: Seq<char>,
    pub environment_digest: Seq<char>,
    pub working_root: Seq<char>,
    pub credential_handles: Seq<Seq<char>>,
    pub bounds: ProgramBounds,
}

impl View for LaunchRecord {
    type V = LaunchView;

    open spec fn view(&self) -> LaunchView {
        LaunchView {
            program: self.program@,
            arguments_digest: self.arguments_digest@,
            environment_digest: self.environment_digest@,
            working_root: self.working_root@,
            credential_handles: text_views(self.credential_handles@),
            bounds: self.bounds,
        }
    }
}

/// The durable account of one settled execution. Written once, never edited.
#[derive(Debug, PartialEq, Eq)]
pub struct ExecutionReceipt {
    pub execution: ExecutionId,
    pub launch: LaunchRecord,
    pub disposition: ExitDisposition,
    pub started_at_ms: u64,
    pub settled_at_ms: u64,
    pub stdout: Option<CaptureRecord>,
    pub stderr: Option<CaptureRecord>,
}

/// What an [`ExecutionReceipt`] says.
pub struct ReceiptView {
    pub execution: Seq<char>,
    pub launch: LaunchView,
    pub disposition: ExitDisposition,
    pub started_at_ms: u64,
    pub settled_at_ms: u64,
    pub stdout: Option<CaptureView>,
    pub stderr: Option<CaptureView>,
}

impl View for ExecutionReceipt {
    type V = ReceiptView;

    open spec fn view(&self) -> ReceiptView {
        ReceiptView {
            execution: self.execution@,
            launch: self.launch@,
            disposition: self.disposition,
            started_at_ms: self.started_at_ms,
            settled_at_ms: self.settled_at_ms,
            stdout: capture_view(self.stdout),
            stderr: capture_view(self.stderr),
        }
    }
}

fn copy_texts(texts: &Vec<String>) -> (r: Vec<String>)
    ensures
        text_views(r@) == text_views(texts@),
{
    let mut out: Vec<String> = Vec::new();
    let mut i: usize = 0;
    while i < texts.len()
        invariant
            i <= texts@.len(),
            out@.len() == i,
            forall|j: int| 0 <= j < i ==> (#[trigger] out@[j])@ == texts@[j]@,
        decreases texts@.len() - i,
    {
        out.push(texts[i].clone());
        i += 1;
    }
    proof {
        assert(text_views(out@) =~= text_views(texts@));
    }
    out
}

impl LaunchRecord {
    /// A second copy of the record.
    pub fn duplicate(&self) -> (r: LaunchRecord)
        ensures
            r@ == self@,
    {
        LaunchRecord {
            program: self.program.duplicate(),
            arguments_digest: self.arguments_digest.duplicate(),
            environment_digest: self.environment_digest.duplicate(),
            working_root: self.working_root.clone(),
            credential_handles: copy_texts(&self.credential_handles),
            bounds: self.bounds,
        }
    }

    /// The receipt of an execution of this launch.
    pub fn receipt(
        &self,
        execution: &ExecutionId,
        disposition: ExitDisposition,
        started_at_ms: u64,
        settled_at_ms: u64,
        stdout: Option<CaptureRecord>,
        stderr: Option<CaptureRecord>,
    ) -> (r: ExecutionReceipt)
        ensures
            r@ == (ReceiptView {
                execution: execution@,
                launch: self@,
                disposition,
                started_at_ms,
                settled_at_ms,
                stdout: capture_view(stdout),
                stderr: capture_view(stderr),
            }),
    {
        ExecutionReceipt {
            execution: execution.duplicate(),
            launch: self.duplicate(),
            disposition,
            started_at_ms,
            settled_at_ms,
            stdout,
            stderr,
        }
    }
}

/// A capture as a field of a receipt's identity.
pub open spec fn capture_field(capture: Option<CaptureView>) -> Seq<char> {
    match capture {
        None => "absent"@,
        Some(c) => c.stream.name() + "|"@ + identity_of(c.artifact) + "|"@
            + decimal(c.captured_bytes as nat) + "|"@ + decimal(c.produced_bytes as nat) + "|"@
            + decimal(c.declared_bound as nat) + "|"@ + (if c.truncated {
            "true"@
        } else {
            "false"@
        }),
    }
}

/// A capture as a field of a receipt's identity.
pub fn capture_text(capture: &Option<CaptureRecord>) -> (r: String)
    ensures
        r@ == capture_field(capture_view(*capture)),
{
    match capture {
        None => "absent".to_owned(),
        Some(c) => {
            let mut out = c.stream.as_str().to_owned();
            out.append("|");
            out.append(c.artifact.id().as_str());
            out.append("|");
            push_decimal(&mut out, c.captured_bytes);
            out.append("|");
            push_decimal(&mut out, c.produced_bytes);
            out.append("|");
            push_decimal(&mut out, c.declared_bound);
            out.append("|");
            out.append(
                if c.truncated {
                    "true"
                } else {
                    "false"
                },
            );
            out
        },
    }
}

/// The fields that the identity of a receipt is taken over.
pub open spec fn receipt_fields(receipt: ReceiptView) -> Seq<Seq<char>> {
    seq![
        "program-execution"@,
        receipt.execution,
        receipt.launch.program,
        receipt.launch.arguments_digest,
        receipt.launch.environment_digest,
        receipt.launch.working_root,
        decimal(receipt.launch.credential_handles.len()),
    ] + receipt.launch.credential_handles + seq![
        decimal(receipt.launch.bounds.deadline_ms as nat),
        decimal(receipt.launch.bounds.stdout_capture_bytes as nat),
        decimal(receipt.launch.bounds.stderr_capture_bytes as nat),
        receipt.disposition.token(),
        decimal(receipt.started_at_ms as nat),
        decimal(receipt.settled_at_ms as nat),
        capture_field(receipt.stdout),
        capture_field(receipt.stderr),
    ]
}

/// Whether a capture refers to an artifact by a digest.
pub open spec fn capture_addressed(capture: Option<CaptureView>) -> bool {
    capture matches Some(c) ==> is_sha256(c.artifact)
}

/// Two texts that hold no bar, each with a bar and a rest behind it, are told apart.
proof fn lemma_bar(a: Seq<char>, x: Seq<char>, b: Seq<char>, y: Seq<char>)
    requires
        forall|i: int| 0 <= i < a.len() ==> #[trigger] a[i] != '|',
        forall|i: int| 0 <= i < b.len() ==> #[trigger] b[i] != '|',
        a + "|"@ + x == b + "|"@ + y,
    ensures
        a == b,
        x == y,
{
    reveal_strlit("|");
    let left = a + "|"@ + x;
    let right = b + "|"@ + y;
    assert(left[a.len() as int] == '|');
    assert(right[b.len() as int] == '|');
    if a.len() < b.len() {
        assert(right[a.len() as int] == b[a.len() as int]);
    } else if b.len() < a.len() {
        assert(left[b.len() as int] == a[b.len() as int]);
    }
    assert forall|i: int| 0 <= i < a.len() implies a[i] == b[i] by {
        assert(left[i] == a[i] && right[i] == b[i]);
    }
    assert(a =~= b);
    assert(left.len() == a.len() + 1 + x.len());
    assert(right.len() == b.len() + 1 + y.len());
    assert forall|i: int| 0 <= i < x.len() implies x[i] == y[i] by {
        assert(left[a.len() + 1 + i] == x[i] && right[b.len() + 1 + i] == y[i]);
    }
    assert(x =~= y);
}

proof fn lemma_number_has_no_bar(n: nat)
    ensures
        forall|i: int| 0 <= i < decimal(n).len() ==> #[trigger] decimal(n)[i] != '|',
{
    lemma_decimal_digits(n);
    assert forall|i: int| 0 <= i < decimal(n).len() implies #[trigger] decimal(n)[i] != '|' by {
        assert(is_digit(decimal(n)[i]));
    }
}

/// The parts of a capture's field behind its stream.
spec fn capture_rest(c: CaptureView) -> Seq<char> {
    identity_of(c.artifact) + "|"@ + counts_rest(c)
}

spec fn counts_rest(c: CaptureView) -> Seq<char> {
    decimal(c.captured_bytes as nat) + "|"@ + (decimal(c.produced_bytes as nat) + "|"@ + (decimal(
        c.declared_bound as nat,
    ) + "|"@ + truncation(c)))
}

spec fn truncation(c: CaptureView) -> Seq<char> {
    if c.truncated {
        "true"@
    } else {
        "false"@
    }
}

proof fn lemma_capture_field(c: CaptureView)
    ensures
        capture_field(Some(c)) == c.stream.name() + "|"@ + capture_rest(c),
{
    assert(capture_field(Some(c)) =~= c.stream.name() + "|"@ + capture_rest(c));
}

/// The field that a receipt's identity has of a capture tells captures apart.
pub proof fn law_fields_tell_captures_apart(a: Option<CaptureView>, b: Option<CaptureView>)
    requires
        capture_addressed(a),
        capture_addressed(b),
        capture_field(a) == capture_field(b),
    ensures
        a == b,
{
    reveal_strlit("|");
    reveal_strlit("absent");
    reveal_strlit("stdout");
    reveal_strlit("stderr");
    reveal_strlit("true");
    reveal_strlit("false");
    reveal_strlit("sha256-");
    match (a, b) {
        (Some(x), Some(y)) => {
            lemma_capture_field(x);
            lemma_capture_field(y);
            lemma_bar(x.stream.name(), capture_rest(x), y.stream.name(), capture_rest(y));
            assert("stdout"@[3] == 'o' && "stderr"@[3] == 'e');
            lemma_bar(
                identity_of(x.artifact),
                counts_rest(x),
                identity_of(y.artifact),
                counts_rest(y),
            );
            law_identities_name_one_digest(x.artifact, y.artifact);
            lemma_number_has_no_bar(x.captured_bytes as nat);
            lemma_number_has_no_bar(y.captured_bytes as nat);
            lemma_number_has_no_bar(x.produced_bytes as nat);
            lemma_number_has_no_bar(y.produced_bytes as nat);
            lemma_number_has_no_bar(x.declared_bound as nat);
            lemma_number_has_no_bar(y.declared_bound as nat);
            let after_x = decimal(x.declared_bound as nat) + "|"@ + truncation(x);
            let after_y = decimal(y.declared_bound as nat) + "|"@ + truncation(y);
            lemma_bar(
                decimal(x.captured_bytes as nat),
                decimal(x.produced_bytes as nat) + "|"@ + after_x,
                decimal(y.captured_bytes as nat),
                decimal(y.produced_bytes as nat) + "|"@ + after_y,
            );
            lemma_bar(
                decimal(x.produced_bytes as nat),
                after_x,
                decimal(y.produced_bytes as nat),
                after_y,
            );
            lemma_bar(
                decimal(x.declared_bound as nat),
                truncation(x),
                decimal(y.declared_bound as nat),
                truncation(y),
            );
            lemma_decimal_injective(x.captured_bytes as nat, y.captured_bytes as nat);
            lemma_decimal_injective(x.produced_bytes as nat, y.produced_bytes as nat);
            lemma_decimal_injective(x.declared_bound as nat, y.declared_bound as nat);
            assert("true"@.len() == 4 && "false"@.len() == 5);
        },
        (Some(x), None) => {
            lemma_capture_field(x);
            assert(capture_field(a)[0] == x.stream.name()[0]);
            assert("absent"@[0] == 'a' && "stdout"@[0] == 's' && "stderr"@[0] == 's');
        },
        (None, Some(y)) => {
            lemma_capture_field(y);
            assert(capture_field(b)[0] == y.stream.name()[0]);
            assert("absent"@[0] == 'a' && "stdout"@[0] == 's' && "stderr"@[0] == 's');
        },
        (None, None) => {},
    }
}

/// The tokens of dispositions tell dispositions apart.
pub proof fn law_tokens_tell_exits_apart(a: ExitDisposition, b: ExitDisposition)
    requires
        a.token() == b.token(),
    ensures
        a == b,
{
    reveal_strlit("exited:");
    reveal_strlit("signalled:");
    reveal_strlit("cancelled");
    reveal_strlit("timed_out");
    reveal_strlit("interrupted");
    assert("exited:"@[0] == 'e' && "signalled:"@[0] == 's' && "cancelled"@[0] == 'c'
        && "timed_out"@[0] == 't' && "interrupted"@[0] == 'i');
    assert(a is Exited ==> a.token()[0] == 'e');
    assert(b is Exited ==> b.token()[0] == 'e');
    assert(a is Signalled ==> a.token()[0] == 's');
    assert(b is Signalled ==> b.token()[0] == 's');
    match (a, b) {
        (ExitDisposition::Exited { code: x }, ExitDisposition::Exited { code: y }) => {
            assert(a.token().skip(7) =~= signed_decimal(x));
            assert(b.token().skip(7) =~= signed_decimal(y));
            lemma_signed_round_trip(x);
            lemma_signed_round_trip(y);
        },
        (ExitDisposition::Signalled { signal: x }, ExitDisposition::Signalled { signal: y }) => {
            assert(a.token().skip(10) =~= signed_decimal(x));
            assert(b.token().skip(10) =~= signed_decimal(y));
            lemma_signed_round_trip(x);
            lemma_signed_round_trip(y);
        },
        _ => {},
    }
}

/// The digest of a receipt is taken over bytes that tell receipts apart: two receipts whose
/// encodings are one are the same receipt.
pub proof fn law_encodings_tell_receipts_apart(a: ReceiptView, b: ReceiptView)
    requires
        capture_addressed(a.stdout),
        capture_addressed(a.stderr),
        capture_addressed(b.stdout),
        capture_addressed(b.stderr),
        texts_frameable(receipt_fields(a)),
        texts_frameable(receipt_fields(b)),
        framed(text_bytes(receipt_fields(a))) == framed(text_bytes(receipt_fields(b))),
    ensures
        a == b,
{
    law_text_framing_is_injective(receipt_fields(a), receipt_fields(b));
    let left = receipt_fields(a);
    let right = receipt_fields(b);
    assert(left[1] == right[1] && left[2] == right[2] && left[3] == right[3] && left[4] == right[4]
        && left[5] == right[5] && left[6] == right[6]);
    let handles = a.launch.credential_handles;
    let n = handles.len() as int;
    lemma_decimal_injective(handles.len(), b.launch.credential_handles.len());
    assert forall|i: int| 0 <= i < n implies handles[i] == b.launch.credential_handles[i] by {
        assert(left[7 + i] == handles[i] && right[7 + i] == b.launch.credential_handles[i]);
    }
    assert(handles =~= b.launch.credential_handles);
    assert(left[7 + n] == right[7 + n] && left[8 + n] == right[8 + n] && left[9 + n] == right[9 + n]
        && left[10 + n] == right[10 + n]);
    assert(left[11 + n] == right[11 + n] && left[12 + n] == right[12 + n] && left[13 + n]
        == right[13 + n] && left[14 + n] == right[14 + n]);
    lemma_decimal_injective(
        a.launch.bounds.deadline_ms as nat,
        b.launch.bounds.deadline_ms as nat,
    );
    lemma_decimal_injective(
        a.launch.bounds.stdout_capture_bytes as nat,
        b.launch.bounds.stdout_capture_bytes as nat,
    );
    lemma_decimal_injective(
        a.launch.bounds.stderr_capture_bytes as nat,
        b.launch.bounds.stderr_capture_bytes as nat,
    );
    law_tokens_tell_exits_apart(a.disposition, b.disposition);
    lemma_decimal_injective(a.started_at_ms as nat, b.started_at_ms as nat);
    lemma_decimal_injective(a.settled_at_ms as nat, b.settled_at_ms as nat);
    law_fields_tell_captures_apart(a.stdout, b.stdout);
    law_fields_tell_captures_apart(a.stderr, b.stderr);
}

/// What is wrong with a receipt that was stored beside a digest, in words.
pub open spec fn receipt_fault(receipt: ReceiptView, expected: Seq<char>) -> Option<Seq<char>> {
    if program_bounds_fault(receipt.launch.bounds) is Some {
        Some(
            ProgramFault::Validation(
                program_bounds_fault(receipt.launch.bounds)->Some_0,
            ).words(),
        )
    } else if receipt.settled_at_ms < receipt.started_at_ms {
        Some("a receipt settles before it starts"@)
    } else if receipt_capture_fault(receipt.stdout, ProgramStream::Stdout,
        receipt.launch.bounds) is Some {
        receipt_capture_fault(receipt.stdout, ProgramStream::Stdout, receipt.launch.bounds)
    } else if receipt_capture_fault(receipt.stderr, ProgramStream::Stderr,
        receipt.launch.bounds) is Some {
        receipt_capture_fault(receipt.stderr, ProgramStream::Stderr, receipt.launch.bounds)
    } else if fields_identity(receipt_fields(receipt)) != expected {
        Some("a stored receipt does not address to its own digest"@)
    } else {
        None
    }
}

/// What is wrong with a capture in a receipt, in words.
pub open spec fn receipt_capture_fault(
    capture: Option<CaptureView>,
    stream: ProgramStream,
    bounds: ProgramBounds,
) -> Option<Seq<char>> {
    match capture {
        None => None,
        Some(c) => if capture_fault(c) is Some {
            capture_fault(c)
        } else if c.declared_bound != bounds.capture_bound(c.stream) {
            Some("a capture record cites a bound the launch did not declare"@)
        } else if c.stream != stream {
            Some("a receipt binds a capture record to the wrong stream"@)
        } else {
            None
        },
    }
}

fn check_capture(
    capture: &Option<CaptureRecord>,
    stream: ProgramStream,
    bounds: ProgramBounds,
) -> (r: Result<(), ProgramError>)
    ensures
        program_fault(r) == match receipt_capture_fault(capture_view(*capture), stream, bounds) {
            Some(m) => Some(ProgramFault::Corrupt(m)),
            None => None,
        },
{
    match capture {
        None => Ok(()),
        Some(c) => {
            if let Some(message) = c.check() {
                return Err(corrupt(message));
            }
            if c.declared_bound != bounds.capture_bytes(c.stream) {
                return Err(corrupt("a capture record cites a bound the launch did not declare"));
            }
            if c.stream != stream {
                return Err(corrupt("a receipt binds a capture record to the wrong stream"));
            }
            Ok(())
        },
    }
}

impl ExecutionReceipt {
    /// The identity of the receipt's content.
    pub fn digest(&self) -> (r: ArtifactDigest)
        ensures
            r@ == fields_identity(receipt_fields(self@)),
    {
        let handles = &self.launch.credential_handles;
        let ghost head = seq![
            "program-execution"@,
            self@.execution,
            self@.launch.program,
            self@.launch.arguments_digest,
            self@.launch.environment_digest,
            self@.launch.working_root,
            decimal(self@.launch.credential_handles.len()),
        ];
        let mut fields: Vec<String> = Vec::new();
        push_text(&mut fields, "program-execution");
        push_text(&mut fields, self.execution.as_str());
        push_text(&mut fields, self.launch.program.as_str());
        push_text(&mut fields, self.launch.arguments_digest.as_str());
        push_text(&mut fields, self.launch.environment_digest.as_str());
        push_text(&mut fields, self.launch.working_root.as_str());
        push_number(&mut fields, handles.len() as u64);
        proof {
            assert(text_views(fields@) =~= head);
            assert(text_views(handles@).take(0) =~= Seq::empty());
            assert(head + Seq::<Seq<char>>::empty() =~= head);
        }
        let mut i: usize = 0;
        while i < handles.len()
            invariant
                i <= handles@.len(),
                text_views(fields@) == head + text_views(handles@).take(i as int),
            decreases handles@.len() - i,
        {
            push_text(&mut fields, handles[i].as_str());
            proof {
                assert(head + text_views(handles@).take(i + 1) =~= (head + text_views(
                    handles@,
                ).take(i as int)).push(handles@[i as int]@));
            }
            i += 1;
        }
        push_number(&mut fields, self.launch.bounds.deadline_ms);
        push_number(&mut fields, self.launch.bounds.stdout_capture_bytes);
        push_number(&mut fields, self.launch.bounds.stderr_capture_bytes);
        push_text(&mut fields, self.disposition.as_token().as_str());
        push_number(&mut fields, self.started_at_ms);
        push_number(&mut fields, self.settled_at_ms);
        push_text(&mut fields, capture_text(&self.stdout).as_str());
        push_text(&mut fields, capture_text(&self.stderr).as_str());
        proof {
            assert(text_views(handles@).take(handles@.len() as int) =~= text_views(handles@));
            assert(text_views(fields@) =~= receipt_fields(self@));
        }
        digest_of_fields(&fields)
    }

    /// Checks a receipt that was stored, against the digest stored with it and against itself.
    pub fn verify(&self, expected: &ArtifactDigest) -> (r: Result<(), ProgramError>)
        ensures
            program_fault(r) == match receipt_fault(self@, expected@) {
                Some(m) => Some(ProgramFault::Corrupt(m)),
                None => None,
            },
    {
        if let Err(error) = self.launch.bounds.validate() {
            return Err(ProgramError::Corrupt(error.describe()));
        }
        if self.settled_at_ms < self.started_at_ms {
            return Err(corrupt("a receipt settles before it starts"));
        }
        check_capture(&self.stdout, ProgramStream::Stdout, self.launch.bounds)?;
        check_capture(&self.stderr, ProgramStream::Stderr, self.launch.bounds)?;
        if !self.digest().same(expected) {
            return Err(corrupt("a stored receipt does not address to its own digest"));
        }
        Ok(())
    }

    /// A second copy of the receipt.
    pub fn duplicate(&self) -> (r: ExecutionReceipt)
        ensures
            r@ == self@,
    {
        ExecutionReceipt {
            execution: self.execution.duplicate(),
            launch: self.launch.duplicate(),
            disposition: self.disposition,
            started_at_ms: self.started_at_ms,
            settled_at_ms: self.settled_at_ms,
            stdout: copy_capture(&self.stdout),
            stderr: copy_capture(&self.stderr),
        }
    }
}

/// One stored row. A document that could not be read carries the reader's words.
pub struct ExecutionRow {
    pub execution_id: String,
    pub state: String,
    pub owner: String,
    pub pid: i64,
    pub started_at_ms: i64,
    pub launch: Result<LaunchRecord, String>,
    pub receipt: Option<Result<ExecutionReceipt, String>>,
    pub receipt_digest: Option<String>,
}

/// One row whose every value has been checked.
#[derive(Debug, PartialEq, Eq)]
pub struct StoredExecution {
    pub execution: ExecutionId,
    pub owner: ProgramLabel,
    pub pid: u32,
    pub started_at_ms: u64,
    pub launch: LaunchRecord,
    pub receipt: Option<ExecutionReceipt>,
}

/// What a [`StoredExecution`] says.
pub struct StoredExecutionView {
    pub execution: Seq<char>,
    pub owner: Seq<char>,
    pub pid: u32,
    pub started_at_ms: u64,
    pub launch: LaunchView,
    pub receipt: Option<ReceiptView>,
}

impl View for StoredExecution {
    type V = StoredExecutionView;

    open spec fn view(&self) -> StoredExecutionView {
        StoredExecutionView {
            execution: self.execution@,
            owner: self.owner@,
            pid: self.pid,
            started_at_ms: self.started_at_ms,
            launch: self.launch@,
            receipt: match self.receipt {
                Some(r) => Some(r@),
                None => None,
            },
        }
    }
}

/// A refused value as corruption, in words.
pub open spec fn refused_words(message: Option<Seq<char>>) -> Option<Seq<char>> {
    match message {
        Some(m) => Some(ProgramFault::Validation(m).words()),
        None => None,
    }
}

/// What is wrong with the receipt of a row, in words.
pub open spec fn row_receipt_fault(row: ExecutionRow) -> Option<Seq<char>> {
    match (row.state@ == "settled"@, row.receipt, row.receipt_digest) {
        (false, None, None) => None,
        (true, Some(receipt), Some(digest)) => match receipt {
            Err(words) => Some("stored receipt is undecodable: "@ + words@),
            Ok(receipt) => if !is_sha256(digest@) {
                Some(
                    ArtifactFault::Validation(
                        "artifact digest is not a lowercase hexadecimal SHA-256"@,
                    ).words(),
                )
            } else if receipt_fault(receipt@, digest@) is Some {
                receipt_fault(receipt@, digest@)
            } else if receipt.execution@ != row.execution_id@ {
                Some("a stored receipt names another execution"@)
            } else {
                None
            },
        },
        _ => Some("a stored execution's state and receipt disagree with each other"@),
    }
}

/// What is wrong with a row, in words: each value is checked before the next is looked at.
pub open spec fn row_fault(row: ExecutionRow) -> Option<Seq<char>> {
    if execution_id_fault(row.execution_id@) is Some {
        refused_words(execution_id_fault(row.execution_id@))
    } else if row.state@ != "running"@ && row.state@ != "settled"@ {
        Some("unknown execution state "@ + debug_quoted(row.state@))
    } else if program_label_fault(row.owner@) is Some {
        refused_words(program_label_fault(row.owner@))
    } else if !(0 <= row.pid <= u32::MAX) {
        Some("stored execution row holds a pid outside the OS range"@)
    } else if row.started_at_ms < 0 {
        Some("stored execution row holds a negative instant"@)
    } else {
        match row.launch {
            Err(words) => Some("stored launch record is undecodable: "@ + words@),
            Ok(launch) => if program_bounds_fault(launch@.bounds) is Some {
                refused_words(program_bounds_fault(launch@.bounds))
            } else {
                row_receipt_fault(row)
            },
        }
    }
}

/// What a sound row says.
pub open spec fn row_view(row: ExecutionRow) -> StoredExecutionView {
    StoredExecutionView {
        execution: row.execution_id@,
        owner: row.owner@,
        pid: row.pid as u32,
        started_at_ms: row.started_at_ms as u64,
        launch: row.launch->Ok_0@,
        receipt: match row.receipt {
            Some(Ok(receipt)) => Some(receipt@),
            _ => None,
        },
    }
}

fn headed(head: &str, tail: &str) -> (r: ProgramError)
    ensures
        r@ == ProgramFault::Corrupt(head@ + tail@),
{
    let mut out = head.to_owned();
    out.append(tail);
    ProgramError::Corrupt(out)
}

/// Reads a row, and refuses one that was not written here or was damaged.
pub fn decode(row: ExecutionRow) -> (r: Result<StoredExecution, ProgramError>)
    ensures
        match row_fault(row) {
            Some(m) => program_fault(r) == Some(ProgramFault::Corrupt(m)),
            None => r is Ok && r->Ok_0@ == row_view(row),
        },
{
    let execution = match ExecutionId::new(row.execution_id.as_str()) {
        Ok(id) => id,
        Err(error) => {
            return Err(ProgramError::Corrupt(error.describe()));
        },
    };
    let settled = same_text(row.state.as_str(), "settled");
    if !settled && !same_text(row.state.as_str(), "running") {
        let name = quoted(row.state.as_str());
        return Err(headed("unknown execution state ", name.as_str()));
    }
    let owner = match ProgramLabel::new(row.owner.as_str()) {
        Ok(label) => label,
        Err(error) => {
            return Err(ProgramError::Corrupt(error.describe()));
        },
    };
    if row.pid < 0 || row.pid > u32::MAX as i64 {
        return Err(corrupt("stored execution row holds a pid outside the OS range"));
    }
    let pid: u32 = row.pid as u32;
    if row.started_at_ms < 0 {
        return Err(corrupt("stored execution row holds a negative instant"));
    }
    let started_at_ms: u64 = row.started_at_ms as u64;
    let launch = match row.launch {
        Ok(launch) => launch,
        Err(words) => {
            return Err(headed("stored launch record is undecodable: ", words.as_str()));
        },
    };
    if let Err(error) = launch.bounds.validate() {
        return Err(ProgramError::Corrupt(error.describe()));
    }
    let receipt = match (row.receipt, row.receipt_digest) {
        (None, None) => {
            if settled {
                return Err(
                    corrupt("a stored execution's state and receipt disagree with each other"),
                );
            }
            None
        },
        (Some(receipt), Some(digest)) => {
            if !settled {
                return Err(
                    corrupt("a stored execution's state and receipt disagree with each other"),
                );
            }
            let receipt = match receipt {
                Ok(receipt) => receipt,
                Err(words) => {
                    return Err(headed("stored receipt is undecodable: ", words.as_str()));
                },
            };
            let expected = match ArtifactDigest::parse(digest.as_str()) {
                Ok(expected) => expected,
                Err(error) => {
                    return Err(ProgramError::Corrupt(error.describe()));
                },
            };
            receipt.verify(&expected)?;
            if !receipt.execution.same(&execution) {
                return Err(corrupt("a stored receipt names another execution"));
            }
            Some(receipt)
        },
        _ => {
            return Err(corrupt("a stored execution's state and receipt disagree with each other"));
        },
    };
    Ok(StoredExecution { execution, owner, pid, started_at_ms, launch, receipt })
}

/// What is known of an execution.
#[derive(Debug, PartialEq, Eq)]
pub enum ExecutionStatus {
    /// Started by this handle and not settled.
    Running { started_at_ms: u64, process: ProcessIdentity },
    /// Recorded as running, but not by this handle.
    Uncertain { started_at_ms: u64, process: ProcessIdentity },
    Settled(ExecutionReceipt),
}

/// What an [`ExecutionStatus`] says.
#[allow(inconsistent_fields)]
pub enum StatusView {
    Running { started_at_ms: u64, pid: u32, owner: Seq<char> },
    Uncertain { started_at_ms: u64, pid: u32, owner: Seq<char> },
    Settled(ReceiptView),
}

impl View for ExecutionStatus {
    type V = StatusView;

    open spec fn view(&self) -> StatusView {
        match self {
            ExecutionStatus::Running { started_at_ms, process } => StatusView::Running {
                started_at_ms: *started_at_ms,
                pid: process@.0,
                owner: process@.1,
            },
            ExecutionStatus::Uncertain { started_at_ms, process } => StatusView::Uncertain {
                started_at_ms: *started_at_ms,
                pid: process@.0,
                owner: process@.1,
            },
            ExecutionStatus::Settled(receipt) => StatusView::Settled(receipt@),
        }
    }
}

/// What a row says of its execution to a handle.
pub open spec fn status_of(stored: StoredExecutionView, owner: Seq<char>) -> Result<
    StatusView,
    ProgramFault,
> {
    match stored.receipt {
        Some(receipt) => Ok(StatusView::Settled(receipt)),
        None => if stored.pid == 0 {
            Err(
                ProgramFault::Corrupt(
                    ProgramFault::Validation("process identity names no process"@).words(),
                ),
            )
        } else if stored.owner == owner {
            Ok(
                StatusView::Running {
                    started_at_ms: stored.started_at_ms,
                    pid: stored.pid,
                    owner: stored.owner,
                },
            )
        } else {
            Ok(
                StatusView::Uncertain {
                    started_at_ms: stored.started_at_ms,
                    pid: stored.pid,
                    owner: stored.owner,
                },
            )
        },
    }
}

/// Checks that a stored execution stands under its own identity.
pub fn check_addressed(stored: &StoredExecution, execution: &ExecutionId) -> (r: Result<
    (),
    ProgramError,
>)
    ensures
        program_fault(r) == if stored@.execution == execution@ {
            None
        } else {
            Some(ProgramFault::Corrupt("a stored execution does not address its own key"@))
        },
{
    if !stored.execution.same(execution) {
        return Err(corrupt("a stored execution does not address its own key"));
    }
    Ok(())
}

impl StoredExecution {
    /// What the row says of its execution to a handle.
    pub fn into_status(self, owner: &ProgramLabel) -> (r: Result<ExecutionStatus, ProgramError>)
        ensures
            match status_of(self@, owner@) {
                Ok(status) => r is Ok && r->Ok_0@ == status,
                Err(e) => program_fault(r) == Some(e),
            },
    {
        if let Some(receipt) = self.receipt {
            return Ok(ExecutionStatus::Settled(receipt));
        }
        let owned = self.owner.same(owner);
        let process = match ProcessIdentity::new(self.pid, self.owner) {
            Ok(process) => process,
            Err(error) => {
                return Err(ProgramError::Corrupt(error.describe()));
            },
        };
        if owned {
            Ok(ExecutionStatus::Running { started_at_ms: self.started_at_ms, process })
        } else {
            Ok(ExecutionStatus::Uncertain { started_at_ms: self.started_at_ms, process })
        }
    }
}

/// What an optional status says.
pub open spec fn status_option(status: Option<ExecutionStatus>) -> Option<StatusView> {
    match status {
        Some(s) => Some(s@),
        None => None,
    }
}

/// Answers a wait for an execution whose process this handle does not hold: the receipt where it
/// has settled. One that has not is nobody's to wait for here.
pub fn answer_wait(status: Option<ExecutionStatus>, execution: &ExecutionId) -> (r: Result<
    ExecutionReceipt,
    ProgramError,
>)
    ensures
        match status_option(status) {
            Some(StatusView::Settled(receipt)) => r is Ok && r->Ok_0@ == receipt,
            Some(_) => program_fault(r) == Some(ProgramFault::Unowned(execution@)),
            None => program_fault(r) == Some(ProgramFault::NotFound(execution@)),
        },
{
    match status {
        Some(ExecutionStatus::Settled(receipt)) => Ok(receipt),
        Some(_) => Err(ProgramError::Unowned(execution.as_str().to_owned())),
        None => Err(ProgramError::NotFound(execution.as_str().to_owned())),
    }
}

/// Answers a cancel of an execution whose process this handle does not hold. One that has settled
/// keeps its end.
pub fn answer_cancel(status: &Option<ExecutionStatus>, execution: &ExecutionId) -> (r: Result<
    (),
    ProgramError,
>)
    ensures
        match status_option(*status) {
            Some(StatusView::Settled(_)) => r is Ok,
            Some(_) => program_fault(r) == Some(ProgramFault::Unowned(execution@)),
            None => program_fault(r) == Some(ProgramFault::NotFound(execution@)),
        },
{
    match status {
        Some(ExecutionStatus::Settled(_)) => Ok(()),
        Some(_) => Err(ProgramError::Unowned(execution.as_str().to_owned())),
        None => Err(ProgramError::NotFound(execution.as_str().to_owned())),
    }
}

/// Refuses to launch an execution that is known already, whatever became of it.
pub fn check_unknown(status: &Option<ExecutionStatus>, execution: &ExecutionId) -> (r: Result<
    (),
    ProgramError,
>)
    ensures
        program_fault(r) == if *status is Some {
            Some(
                ProgramFault::Conflict(
                    "execution "@ + execution@ + " is already known to this authority"@,
                ),
            )
        } else {
            None
        },
{
    if status.is_none() {
        return Ok(());
    }
    let mut message = "execution ".to_owned();
    message.append(execution.as_str());
    message.append(" is already known to this authority");
    Err(ProgramError::Conflict(message))
}

/// Refuses a launch that recorded no row, because another launch recorded one first.
pub fn check_claimed(inserted: usize, execution: &ExecutionId) -> (r: Result<(), ProgramError>)
    ensures
        program_fault(r) == if inserted == 0 {
            Some(
                ProgramFault::Conflict(
                    "execution "@ + execution@ + " was durably claimed by another launch"@,
                ),
            )
        } else {
            None
        },
{
    if inserted != 0 {
        return Ok(());
    }
    let mut message = "execution ".to_owned();
    message.append(execution.as_str());
    message.append(" was durably claimed by another launch");
    Err(ProgramError::Conflict(message))
}

/// What a poll of a running process leads to.
#[derive(Clone, Copy, Debug, PartialEq, Eq, Structural)]
pub enum PollDecision {
    /// The process ended; what stopped it, when it did not end by itself.
    Settle { stopped: Option<ExitDisposition> },
    /// The process is to be killed, and settles so.
    Kill { stopped: ExitDisposition },
    /// Look again later.
    Wait,
}

/// What a poll of a running process leads to.
pub open spec fn poll_step(
    exited: bool,
    cancelled: bool,
    elapsed_ms: u64,
    deadline_ms: u64,
) -> PollDecision {
    if exited {
        PollDecision::Settle {
            stopped: if cancelled {
                Some(ExitDisposition::Cancelled)
            } else {
                None
            },
        }
    } else if cancelled {
        PollDecision::Kill { stopped: ExitDisposition::Cancelled }
    } else if elapsed_ms >= deadline_ms {
        PollDecision::Kill { stopped: ExitDisposition::TimedOut }
    } else {
        PollDecision::Wait
    }
}

/// A process settles exactly when it has ended, and then never by a deadline. A running one is
/// killed exactly where it was cancelled or its deadline has passed: it settles as cancelled where
/// it was cancelled, and as timed out only where it was not.
pub proof fn law_exits_are_not_rewritten(
    exited: bool,
    cancelled: bool,
    elapsed_ms: u64,
    deadline_ms: u64,
)
    ensures
        ({
            let step = poll_step(exited, cancelled, elapsed_ms, deadline_ms);
            &&& step is Settle <==> exited
            &&& step matches PollDecision::Settle { stopped } ==> {
                &&& stopped is Some <==> cancelled
                &&& stopped is Some ==> stopped->Some_0 is Cancelled
            }
            &&& step is Kill <==> !exited && (cancelled || deadline_ms <= elapsed_ms)
            &&& step matches PollDecision::Kill { stopped } ==> {
                &&& stopped is Cancelled <==> cancelled
                &&& stopped is TimedOut <==> !cancelled
            }
        }),
{
}

/// Decides on a running process. An exit that already happened is not rewritten by a deadline,
/// and counts as a cancellation only where a cancel killed the process.
pub fn poll_program(exited: bool, cancelled: bool, elapsed_ms: u64, deadline_ms: u64) -> (r:
    PollDecision)
    ensures
        r == poll_step(exited, cancelled, elapsed_ms, deadline_ms),
{
    if exited {
        PollDecision::Settle {
            stopped: if cancelled {
                Some(ExitDisposition::Cancelled)
            } else {
                None
            },
        }
    } else if cancelled {
        PollDecision::Kill { stopped: ExitDisposition::Cancelled }
    } else if elapsed_ms >= deadline_ms {
        PollDecision::Kill { stopped: ExitDisposition::TimedOut }
    } else {
        PollDecision::Wait
    }
}

/// What a settlement answers: the receipt that stands already, or the new one when the row is
/// still running.
pub open spec fn settle_outcome(
    stored: Option<ReceiptView>,
    running: bool,
    receipt: ReceiptView,
) -> Result<(ReceiptView, bool), ProgramFault> {
    match stored {
        Some(known) => Ok((known, false)),
        None => if running {
            Ok((receipt, true))
        } else {
            Err(ProgramFault::NotFound(receipt.execution))
        },
    }
}

/// Settles an execution, and says whether the receipt is to be written. The first answer stands:
/// a second settlement replays it.
pub fn settle(stored: Option<ExecutionReceipt>, running: bool, receipt: ExecutionReceipt) -> (r:
    Result<(ExecutionReceipt, bool), ProgramError>)
    ensures
        match settle_outcome(
            match stored {
                Some(known) => Some(known@),
                None => None,
            },
            running,
            receipt@,
        ) {
            Ok((settled, write)) => r is Ok && r->Ok_0.0@ == settled && r->Ok_0.1 == write,
            Err(e) => program_fault(r) == Some(e),
        },
{
    match stored {
        Some(known) => Ok((known, false)),
        None => if running {
            Ok((receipt, true))
        } else {
            Err(ProgramError::NotFound(receipt.execution.as_str().to_owned()))
        },
    }
}

/// Settling twice gives the first receipt both times, whatever the second one would have said.
pub proof fn law_settlements_are_final(first: ReceiptView, second: ReceiptView)
    ensures
        ({
            let once = settle_outcome(None, true, first);
            &&& once == Ok::<(ReceiptView, bool), ProgramFault>((first, true))
            &&& settle_outcome(Some(once->Ok_0.0), false, second) == Ok::<
                (ReceiptView, bool),
                ProgramFault,
            >((first, false))
        }),
{
}

/// What a reconciliation found out.
#[derive(Debug, PartialEq, Eq)]
pub enum ReconcileOutcome {
    StillRunning,
    Uncertain,
    /// The execution has a receipt, or gets this one.
    Settled(ExecutionReceipt),
}

/// What a [`ReconcileOutcome`] says.
pub enum ReconcileView {
    StillRunning,
    Uncertain,
    Settled(ReceiptView),
}

impl View for ReconcileOutcome {
    type V = ReconcileView;

    open spec fn view(&self) -> ReconcileView {
        match self {
            ReconcileOutcome::StillRunning => ReconcileView::StillRunning,
            ReconcileOutcome::Uncertain => ReconcileView::Uncertain,
            ReconcileOutcome::Settled(receipt) => ReconcileView::Settled(receipt@),
        }
    }
}

/// The later of two instants.
pub open spec fn later(a: u64, b: u64) -> u64 {
    if a >= b {
        a
    } else {
        b
    }
}

/// What evidence of a process makes of its execution. A process that is gone was interrupted: its
/// output is absent, since nobody read it, and success is never claimed.
pub open spec fn reconciled(stored: StoredExecutionView, liveness: Liveness,
    now_ms: u64) -> ReconcileView {
    match stored.receipt {
        Some(receipt) => ReconcileView::Settled(receipt),
        None => match liveness {
            Liveness::Live => ReconcileView::StillRunning,
            Liveness::Unknown => ReconcileView::Uncertain,
            Liveness::Gone => ReconcileView::Settled(
                ReceiptView {
                    execution: stored.execution,
                    launch: stored.launch,
                    disposition: ExitDisposition::Interrupted,
                    started_at_ms: stored.started_at_ms,
                    settled_at_ms: later(now_ms, stored.started_at_ms),
                    stdout: None,
                    stderr: None,
                },
            ),
        },
    }
}

/// Decides what evidence of a process makes of its execution.
pub fn reconcile(stored: StoredExecution, liveness: Liveness, now_ms: u64) -> (r: ReconcileOutcome)
    ensures
        r@ == reconciled(stored@, liveness, now_ms),
{
    if let Some(receipt) = stored.receipt {
        return ReconcileOutcome::Settled(receipt);
    }
    match liveness {
        Liveness::Live => ReconcileOutcome::StillRunning,
        Liveness::Unknown => ReconcileOutcome::Uncertain,
        Liveness::Gone => {
            let settled_at_ms: u64 = if now_ms >= stored.started_at_ms {
                now_ms
            } else {
                stored.started_at_ms
            };
            ReconcileOutcome::Settled(
                stored.launch.receipt(
                    &stored.execution,
                    ExitDisposition::Interrupted,
                    stored.started_at_ms,
                    settled_at_ms,
                    None,
                    None,
                ),
            )
        },
    }
}

/// The receipt that a reconciliation writes for a process that is gone passes the check that
/// stored receipts must pass.
pub proof fn law_interrupted_receipts_verify(stored: StoredExecutionView, now_ms: u64)
    requires
        stored.receipt is None,
        program_bounds_fault(stored.launch.bounds) is None,
    ensures
        reconciled(stored, Liveness::Gone, now_ms) matches ReconcileView::Settled(receipt)
            ==> receipt_fault(receipt, fields_identity(receipt_fields(receipt))) is None,
{
}

/// A stored receipt is what an execution is known by, whoever asks. Without one it is running to
/// the handle that owns it and uncertain to every other, by the same facts. Evidence of its process
/// settles it only where the process is gone: as interrupted, with the launch and the start that
/// were stored, and without output.
pub proof fn law_executions_are_known_by_their_receipts(
    stored: StoredExecutionView,
    owner: Seq<char>,
    liveness: Liveness,
    now_ms: u64,
)
    ensures
        ({
            let status = status_of(stored, owner);
            &&& stored.receipt is Some ==> status == Ok::<StatusView, ProgramFault>(
                StatusView::Settled(stored.receipt->Some_0),
            )
            &&& (status matches Ok(StatusView::Running { .. })) <==> stored.receipt is None
                && stored.pid != 0 && stored.owner == owner
            &&& (status matches Ok(StatusView::Uncertain { .. })) <==> stored.receipt is None
                && stored.pid != 0 && stored.owner != owner
            &&& status matches Ok(StatusView::Running { started_at_ms, pid, owner: of })
                ==> started_at_ms == stored.started_at_ms && pid == stored.pid && of == stored.owner
            &&& status matches Ok(StatusView::Uncertain { started_at_ms, pid, owner: of })
                ==> started_at_ms == stored.started_at_ms && pid == stored.pid && of == stored.owner
        }),
        ({
            let found = reconciled(stored, liveness, now_ms);
            &&& stored.receipt is Some ==> found == ReconcileView::Settled(stored.receipt->Some_0)
            &&& found is StillRunning <==> stored.receipt is None && liveness is Live
            &&& found is Uncertain <==> stored.receipt is None && liveness is Unknown
            &&& stored.receipt is None && liveness is Gone ==> {
                let receipt = found->Settled_0;
                &&& receipt.execution == stored.execution
                &&& receipt.launch == stored.launch
                &&& receipt.disposition is Interrupted
                &&& receipt.started_at_ms == stored.started_at_ms
                &&& receipt.settled_at_ms >= receipt.started_at_ms
                &&& now_ms >= stored.started_at_ms ==> receipt.settled_at_ms == now_ms
                &&& receipt.stdout is None
                &&& receipt.stderr is None
            }
        }),
{
}

/// A stored receipt is accepted exactly where the bounds of its launch are in order, it does not
/// settle before it starts, each capture that is there is of its own stream, keeps within the bound
/// that the launch declared and has counts that fit together, and it addresses to the digest that
/// was stored beside it.
pub proof fn law_receipts_are_accepted_when_sound(receipt: ReceiptView, expected: Seq<char>)
    ensures
        receipt_fault(receipt, expected) is None <==> {
            let bounds = receipt.launch.bounds;
            &&& 0 < bounds.deadline_ms <= MAX_PROGRAM_DEADLINE_MS
            &&& bounds.stdout_capture_bytes <= MAX_PROGRAM_CAPTURE_BYTES
            &&& bounds.stderr_capture_bytes <= MAX_PROGRAM_CAPTURE_BYTES
            &&& receipt.started_at_ms <= receipt.settled_at_ms
            &&& receipt.stdout matches Some(capture) ==> {
                &&& capture.stream is Stdout
                &&& capture.declared_bound == bounds.stdout_capture_bytes
                &&& capture.captured_bytes <= capture.produced_bytes
                &&& capture.captured_bytes <= capture.declared_bound
                &&& capture.truncated <==> capture.captured_bytes < capture.produced_bytes
            }
            &&& receipt.stderr matches Some(capture) ==> {
                &&& capture.stream is Stderr
                &&& capture.declared_bound == bounds.stderr_capture_bytes
                &&& capture.captured_bytes <= capture.produced_bytes
                &&& capture.captured_bytes <= capture.declared_bound
                &&& capture.truncated <==> capture.captured_bytes < capture.produced_bytes
            }
            &&& fields_identity(receipt_fields(receipt)) == expected
        },
{
}

/// A number as the store keeps it.
pub fn as_i64(value: u64) -> (r: Result<i64, ProgramError>)
    ensures
        if value <= i64::MAX {
            r is Ok && r->Ok_0 == value
        } else {
            program_fault(r) == Some(
                ProgramFault::Validation("value exceeds the storable range"@),
            )
        },
{
    if value > i64::MAX as u64 {
        return Err(validation("value exceeds the storable range"));
    }
    Ok(value as i64)
}

/// A row that is accepted is settled exactly where it has a receipt, which is of this execution.
/// What is read of it is what stands in its columns.
pub proof fn law_rows_tell_what_was_stored(row: ExecutionRow)
    requires
        row_fault(row) is None,
    ensures
        ({
            let stored = row_view(row);
            &&& stored.execution == row.execution_id@
            &&& stored.owner == row.owner@
            &&& stored.pid == row.pid
            &&& stored.started_at_ms == row.started_at_ms
            &&& row.launch is Ok
            &&& stored.launch == row.launch->Ok_0@
            &&& stored.receipt is Some <==> row.state@ == "settled"@
            &&& stored.receipt is None <==> row.state@ == "running"@
            &&& stored.receipt matches Some(receipt) ==> receipt.execution == stored.execution
        }),
{
    reveal_strlit("running");
    reveal_strlit("settled");
    assert("running"@[0] == 'r' && "settled"@[0] == 's');
}

/// A captured stream is bound to an artifact exactly where the artifact is of the bytes that were
/// kept and these are within the bound and no more than were produced.
pub proof fn law_captures_are_bound_to_their_bytes(
    stream: ProgramStream,
    artifact: Seq<char>,
    capture: BoundedView,
    bound: u64,
)
    requires
        capture.content.len() <= u64::MAX,
    ensures
        binding_fault(stream, artifact, capture, bound) is None <==> {
            &&& artifact == sha256_hex(capture.content)
            &&& capture.content.len() <= capture.produced_bytes
            &&& capture.content.len() <= bound
        },
{
}

/// Output is declared to a vault as bytes that live as long as their producer, recorded by the
/// execution and the stream that they came from: the two streams of an execution are recorded
/// apart.
pub proof fn law_output_is_recorded_by_its_stream(
    producer: Seq<char>,
    execution: Seq<char>,
    stream: ProgramStream,
    now_ms: u64,
)
    ensures
        ({
            let write = output_write(producer, execution, stream, now_ms);
            &&& write.media_type == "application/octet-stream"@
            &&& write.retention is WhileProducerLives
            &&& write.retain_until_ms is None
            &&& write.provenance.kind is OperationRecord
            &&& write.provenance.producer_run == producer
            &&& write.provenance.recorded_at_ms == now_ms
            &&& write.provenance.observation is None
            &&& stream is Stdout ==> write.provenance.operation == execution + "."@ + "stdout"@
            &&& stream is Stderr ==> write.provenance.operation == execution + "."@ + "stderr"@
        }),
{
}

} // verus!
