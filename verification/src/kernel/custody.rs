//! The custody of kernel sessions: what is stored and how it is read back, what may be submitted,
//! and how executions, sessions, checkpoints and restores settle.

use crate::artifact::{is_sha256, ArtifactDigest, ArtifactFault, ArtifactHandle};
use crate::digest::{bytes_of, sha256_hex};
use crate::kernel::frame::{FrameStatus, FrameView, Segment, SegmentView};
use crate::kernel::receipt::{
    checkpoint_fault, copy_losses, duration, execution_identity, execution_receipt_fault,
    loss_views, session_receipt_fault, CarriedView, CheckpointView, EndView, ExecutionReceiptView,
    ExecutionStatusView, KernelCheckpointRef, KernelDisposition, KernelExecutionDisposition,
    KernelExecutionReceipt, KernelExecutionStatus, KernelRestore, KernelSessionReceipt,
    KernelSessionStatus, LossView, SessionEndView, SessionReceiptView, SessionStatusView,
};
use crate::kernel::snapshot::{parse_snapshot, snapshot_outcome};
use crate::kernel::spec::{
    holds_char, source_identity, spec_fault, spec_identity, submission_fault, KernelSpec,
    KernelSubmission, SpecView, SubmissionView,
};
use crate::kernel::{
    as_corrupt, corrupt, corrupted, execution_bounds_fault, execution_id_fault, first_of,
    generation_fault, kernel_fault, key_fault, numbered, session_bounds_fault, session_id_fault,
    three, two, validation, ExecutionBoundsView, KernelError, KernelExecutionBounds,
    KernelExecutionId, KernelExecutionKey, KernelFault, KernelGeneration, KernelLabel,
    KernelSessionBounds, KernelSessionId, KeyView, SessionBoundsView, LOCAL_KERNEL_PROTOCOL,
    MAX_KERNEL_CHECKPOINT_BYTES,
};
use crate::program::custody::later;
use crate::program::{
    program_label_fault, CaptureRecord, CaptureView, ExecutionId, Liveness, ProcessIdentity, ProgramFault,
    ProgramLabel, ProgramPath,
};
use crate::text::{debug_quoted, decimal, push_decimal, quoted, same_text};
use vstd::prelude::*;
use vstd::utf8::encode_utf8;

verus! {

/// Everything durable about an image that a receipt needs. Its arguments and the values of its
/// environment are not kept.
#[derive(Debug, PartialEq, Eq)]
pub struct SpecRecord {
    pub program: ProgramPath,
    pub protocol: KernelLabel,
    pub working_root: String,
    pub spec_digest: ArtifactDigest,
    pub bounds: KernelSessionBounds,
}

/// What a [`SpecRecord`] says.
pub struct SpecRecordView {
    pub program: Seq<char>,
    pub protocol: Seq<char>,
    pub working_root: Seq<char>,
    pub spec_digest: Seq<char>,
    pub bounds: SessionBoundsView,
}

impl View for SpecRecord {
    type V = SpecRecordView;

    open spec fn view(&self) -> SpecRecordView {
        SpecRecordView {
            program: self.program@,
            protocol: self.protocol@,
            working_root: self.working_root@,
            spec_digest: self.spec_digest@,
            bounds: self.bounds@,
        }
    }
}

impl SpecRecord {
    /// The record of an image.
    pub fn of(spec: &KernelSpec) -> (r: SpecRecord)
        ensures
            r@ == (SpecRecordView {
                program: spec@.program,
                protocol: spec@.protocol,
                working_root: spec@.working_root,
                spec_digest: spec_identity(spec@),
                bounds: spec@.bounds,
            }),
    {
        SpecRecord {
            program: spec.program().duplicate(),
            protocol: spec.protocol().duplicate(),
            working_root: spec.working_root().to_owned(),
            spec_digest: spec.spec_digest(),
            bounds: spec.bounds(),
        }
    }
}

/// Everything durable about a submission: its identity, not its source.
#[derive(Debug, PartialEq, Eq)]
pub struct SubmissionRecord {
    pub source_digest: ArtifactDigest,
    pub spec_digest: ArtifactDigest,
    pub bounds: KernelExecutionBounds,
}

/// What a [`SubmissionRecord`] says.
pub struct SubmissionRecordView {
    pub source_digest: Seq<char>,
    pub spec_digest: Seq<char>,
    pub bounds: ExecutionBoundsView,
}

impl View for SubmissionRecord {
    type V = SubmissionRecordView;

    open spec fn view(&self) -> SubmissionRecordView {
        SubmissionRecordView {
            source_digest: self.source_digest@,
            spec_digest: self.spec_digest@,
            bounds: self.bounds@,
        }
    }
}

/// One stored incarnation. A document that could not be read carries the reader's words.
pub struct IncarnationRow {
    pub generation: i64,
    pub state: String,
    pub owner: String,
    pub pid: i64,
    pub opened_at_ms: i64,
    pub spec: Result<SpecRecord, String>,
    pub executions: i64,
    pub captured_bytes: i64,
    pub receipt: Option<Result<KernelSessionReceipt, String>>,
    pub receipt_digest: Option<String>,
}

/// One incarnation whose every value has been checked.
pub struct StoredIncarnation {
    pub generation: KernelGeneration,
    pub owner: ProgramLabel,
    pub pid: u32,
    pub opened_at_ms: u64,
    pub spec: SpecRecord,
    pub executions: u64,
    pub captured_bytes: u64,
    pub receipt: Option<KernelSessionReceipt>,
}

/// What a [`StoredIncarnation`] says.
pub struct IncarnationView {
    pub generation: u64,
    pub owner: Seq<char>,
    pub pid: u32,
    pub opened_at_ms: u64,
    pub spec: SpecRecordView,
    pub executions: u64,
    pub captured_bytes: u64,
    pub receipt: Option<SessionReceiptView>,
}

impl View for StoredIncarnation {
    type V = IncarnationView;

    open spec fn view(&self) -> IncarnationView {
        IncarnationView {
            generation: self.generation.0,
            owner: self.owner@,
            pid: self.pid,
            opened_at_ms: self.opened_at_ms,
            spec: self.spec@,
            executions: self.executions,
            captured_bytes: self.captured_bytes,
            receipt: match self.receipt {
                Some(r) => Some(r@),
                None => None,
            },
        }
    }
}

/// What is wrong with the owner in a row.
pub open spec fn owner_fault(owner: Seq<char>) -> Option<KernelFault> {
    match program_label_fault(owner) {
        Some(m) => Some(KernelFault::Corrupt(ProgramFault::Validation(m).words())),
        None => None,
    }
}

fn read_owner(owner: &str) -> (r: Result<ProgramLabel, KernelError>)
    ensures
        match owner_fault(owner@) {
            Some(e) => kernel_fault(r) == Some(e),
            None => r is Ok && r->Ok_0@ == owner@,
        },
{
    match ProgramLabel::new(owner) {
        Ok(label) => Ok(label),
        Err(error) => Err(KernelError::Corrupt(error.describe())),
    }
}

/// What is wrong with the digest beside a receipt.
pub open spec fn digest_fault(digest: Seq<char>) -> Option<KernelFault> {
    if is_sha256(digest) {
        None
    } else {
        Some(
            KernelFault::Corrupt(
                ArtifactFault::Validation(
                    "artifact digest is not a lowercase hexadecimal SHA-256"@,
                ).words(),
            ),
        )
    }
}

fn read_digest(digest: &str) -> (r: Result<ArtifactDigest, KernelError>)
    ensures
        match digest_fault(digest@) {
            Some(e) => kernel_fault(r) == Some(e),
            None => r is Ok && r->Ok_0@ == digest@,
        },
{
    match ArtifactDigest::parse(digest) {
        Ok(digest) => Ok(digest),
        Err(error) => Err(KernelError::Corrupt(error.describe())),
    }
}

/// What is wrong with the receipt of an incarnation.
pub open spec fn incarnation_receipt_fault(session: Seq<char>, row: IncarnationRow) -> Option<
    KernelFault,
> {
    match (row.state@ == "settled"@, row.receipt, row.receipt_digest) {
        (false, None, None) => None,
        (true, Some(receipt), Some(digest)) => match receipt {
            Err(words) => Some(
                KernelFault::Corrupt("a stored session receipt is undecodable: "@ + words@),
            ),
            Ok(receipt) => first_of(
                digest_fault(digest@),
                first_of(
                    session_receipt_fault(receipt@, digest@),
                    if receipt@.session != session || receipt@.generation != row.generation {
                        Some(
                            KernelFault::Corrupt(
                                "a stored session receipt names another incarnation"@,
                            ),
                        )
                    } else {
                        None
                    },
                ),
            ),
        },
        _ => Some(
            KernelFault::Corrupt(
                "a stored incarnation's state and receipt disagree with each other"@,
            ),
        ),
    }
}

/// What is wrong with a stored incarnation: each value is checked before the next is looked at.
pub open spec fn incarnation_fault(session: Seq<char>, row: IncarnationRow) -> Option<KernelFault> {
    if row.generation < 0 {
        Some(KernelFault::Corrupt("a stored incarnation names a negative generation"@))
    } else if row.generation == 0 {
        as_corrupt(generation_fault(0))
    } else if row.state@ != "live"@ && row.state@ != "settled"@ {
        Some(KernelFault::Corrupt("unknown incarnation state "@ + debug_quoted(row.state@)))
    } else if owner_fault(row.owner@) is Some {
        owner_fault(row.owner@)
    } else if !(0 <= row.pid <= u32::MAX) {
        Some(KernelFault::Corrupt("a stored incarnation holds a pid outside the OS range"@))
    } else if row.opened_at_ms < 0 {
        Some(KernelFault::Corrupt("a stored incarnation holds a negative instant"@))
    } else {
        match row.spec {
            Err(words) => Some(
                KernelFault::Corrupt("a stored kernel spec is undecodable: "@ + words@),
            ),
            Ok(spec) => if session_bounds_fault(spec@.bounds) is Some {
                as_corrupt(session_bounds_fault(spec@.bounds))
            } else if row.executions < 0 {
                Some(KernelFault::Corrupt("a stored incarnation counts negative executions"@))
            } else if row.captured_bytes < 0 {
                Some(KernelFault::Corrupt("a stored incarnation counts negative captured bytes"@))
            } else {
                incarnation_receipt_fault(session, row)
            },
        }
    }
}

/// What a sound row says.
pub open spec fn incarnation_view(row: IncarnationRow) -> IncarnationView {
    IncarnationView {
        generation: row.generation as u64,
        owner: row.owner@,
        pid: row.pid as u32,
        opened_at_ms: row.opened_at_ms as u64,
        spec: row.spec->Ok_0@,
        executions: row.executions as u64,
        captured_bytes: row.captured_bytes as u64,
        receipt: match row.receipt {
            Some(Ok(receipt)) => Some(receipt@),
            _ => None,
        },
    }
}

/// Reads a stored incarnation, and refuses one that was not written here or was damaged.
#[verifier::spinoff_prover]
pub fn decode_incarnation(session: &KernelSessionId, row: IncarnationRow) -> (r: Result<
    StoredIncarnation,
    KernelError,
>)
    ensures
        match incarnation_fault(session@, row) {
            Some(e) => kernel_fault(r) == Some(e),
            None => r is Ok && r->Ok_0@ == incarnation_view(row),
        },
{
    if row.generation < 0 {
        return Err(corrupt("a stored incarnation names a negative generation"));
    }
    let generation = KernelGeneration::new(row.generation as u64);
    corrupted(generation.validate())?;
    let settled = same_text(row.state.as_str(), "settled");
    if !settled && !same_text(row.state.as_str(), "live") {
        let name = quoted(row.state.as_str());
        return Err(KernelError::Corrupt(two("unknown incarnation state ", name.as_str())));
    }
    let owner = read_owner(row.owner.as_str())?;
    if row.pid < 0 || row.pid > u32::MAX as i64 {
        return Err(corrupt("a stored incarnation holds a pid outside the OS range"));
    }
    let pid: u32 = row.pid as u32;
    if row.opened_at_ms < 0 {
        return Err(corrupt("a stored incarnation holds a negative instant"));
    }
    let opened_at_ms: u64 = row.opened_at_ms as u64;
    let spec = match row.spec {
        Ok(spec) => spec,
        Err(words) => {
            return Err(
                KernelError::Corrupt(two("a stored kernel spec is undecodable: ", words.as_str())),
            );
        },
    };
    corrupted(spec.bounds.validate())?;
    if row.executions < 0 {
        return Err(corrupt("a stored incarnation counts negative executions"));
    }
    let executions: u64 = row.executions as u64;
    if row.captured_bytes < 0 {
        return Err(corrupt("a stored incarnation counts negative captured bytes"));
    }
    let captured_bytes: u64 = row.captured_bytes as u64;
    let receipt = match (row.receipt, row.receipt_digest) {
        (None, None) => {
            if settled {
                return Err(
                    corrupt("a stored incarnation's state and receipt disagree with each other"),
                );
            }
            None
        },
        (Some(receipt), Some(digest)) => {
            if !settled {
                return Err(
                    corrupt("a stored incarnation's state and receipt disagree with each other"),
                );
            }
            let receipt = match receipt {
                Ok(receipt) => receipt,
                Err(words) => {
                    return Err(
                        KernelError::Corrupt(
                            two("a stored session receipt is undecodable: ", words.as_str()),
                        ),
                    );
                },
            };
            let expected = read_digest(digest.as_str())?;
            receipt.verify(&expected)?;
            if !receipt.session.same(session) || receipt.generation.get() != generation.get() {
                return Err(corrupt("a stored session receipt names another incarnation"));
            }
            Some(receipt)
        },
        _ => {
            return Err(corrupt("a stored incarnation's state and receipt disagree with each other"));
        },
    };
    Ok(
        StoredIncarnation {
            generation,
            owner,
            pid,
            opened_at_ms,
            spec,
            executions,
            captured_bytes,
            receipt,
        },
    )
}

/// One stored execution. A document that could not be read carries the reader's words.
pub struct KernelExecutionRow {
    pub session_id: String,
    pub generation: i64,
    pub execution_id: String,
    pub sequence: i64,
    pub state: String,
    pub owner: String,
    pub started_at_ms: i64,
    pub submission: Result<SubmissionRecord, String>,
    pub receipt: Option<Result<KernelExecutionReceipt, String>>,
    pub receipt_digest: Option<String>,
}

/// One execution whose every value has been checked.
pub struct StoredKernelExecution {
    pub key: KernelExecutionKey,
    pub sequence: u64,
    pub owner: ProgramLabel,
    pub started_at_ms: u64,
    pub record: SubmissionRecord,
    pub receipt: Option<KernelExecutionReceipt>,
}

/// What a [`StoredKernelExecution`] says.
pub struct KernelExecutionView {
    pub key: KeyView,
    pub sequence: u64,
    pub owner: Seq<char>,
    pub started_at_ms: u64,
    pub record: SubmissionRecordView,
    pub receipt: Option<ExecutionReceiptView>,
}

impl View for StoredKernelExecution {
    type V = KernelExecutionView;

    open spec fn view(&self) -> KernelExecutionView {
        KernelExecutionView {
            key: self.key@,
            sequence: self.sequence,
            owner: self.owner@,
            started_at_ms: self.started_at_ms,
            record: self.record@,
            receipt: match self.receipt {
                Some(r) => Some(r@),
                None => None,
            },
        }
    }
}

/// The key of a row.
pub open spec fn row_key(row: KernelExecutionRow) -> KeyView {
    KeyView {
        session: row.session_id@,
        generation: row.generation as u64,
        execution: row.execution_id@,
    }
}

/// What is wrong with the receipt of an execution.
pub open spec fn execution_row_receipt_fault(row: KernelExecutionRow) -> Option<KernelFault> {
    match (row.state@ == "settled"@, row.receipt, row.receipt_digest) {
        (false, None, None) => None,
        (true, Some(receipt), Some(digest)) => match receipt {
            Err(words) => Some(
                KernelFault::Corrupt("a stored kernel receipt is undecodable: "@ + words@),
            ),
            Ok(receipt) => first_of(
                digest_fault(digest@),
                first_of(
                    execution_receipt_fault(receipt@, digest@),
                    if receipt@.key != row_key(row) {
                        Some(
                            KernelFault::Corrupt("a stored kernel receipt names another execution"@),
                        )
                    } else {
                        None
                    },
                ),
            ),
        },
        _ => Some(
            KernelFault::Corrupt("a stored execution's state and receipt disagree with each other"@),
        ),
    }
}

/// What is wrong with a stored execution: each value is checked before the next is looked at.
pub open spec fn execution_row_fault(row: KernelExecutionRow) -> Option<KernelFault> {
    if session_id_fault(row.session_id@) is Some {
        as_corrupt(session_id_fault(row.session_id@))
    } else if row.generation < 0 {
        Some(KernelFault::Corrupt("a stored execution names a negative generation"@))
    } else if execution_id_fault(row.execution_id@) is Some {
        as_corrupt(execution_id_fault(row.execution_id@))
    } else if row.generation == 0 {
        as_corrupt(generation_fault(0))
    } else if row.sequence < 0 {
        Some(KernelFault::Corrupt("a stored execution holds a negative sequence"@))
    } else if row.state@ != "in_flight"@ && row.state@ != "settled"@ {
        Some(KernelFault::Corrupt("unknown execution state "@ + debug_quoted(row.state@)))
    } else if owner_fault(row.owner@) is Some {
        owner_fault(row.owner@)
    } else if row.started_at_ms < 0 {
        Some(KernelFault::Corrupt("a stored execution holds a negative instant"@))
    } else {
        match row.submission {
            Err(words) => Some(
                KernelFault::Corrupt("a stored submission is undecodable: "@ + words@),
            ),
            Ok(record) => if execution_bounds_fault(record@.bounds) is Some {
                as_corrupt(execution_bounds_fault(record@.bounds))
            } else {
                execution_row_receipt_fault(row)
            },
        }
    }
}

/// What a sound row says.
pub open spec fn execution_row_view(row: KernelExecutionRow) -> KernelExecutionView {
    KernelExecutionView {
        key: row_key(row),
        sequence: row.sequence as u64,
        owner: row.owner@,
        started_at_ms: row.started_at_ms as u64,
        record: row.submission->Ok_0@,
        receipt: match row.receipt {
            Some(Ok(receipt)) => Some(receipt@),
            _ => None,
        },
    }
}

/// Reads a stored execution, and refuses one that was not written here or was damaged.
#[verifier::spinoff_prover]
pub fn decode_execution(row: KernelExecutionRow) -> (r: Result<StoredKernelExecution, KernelError>)
    ensures
        match execution_row_fault(row) {
            Some(e) => kernel_fault(r) == Some(e),
            None => r is Ok && r->Ok_0@ == execution_row_view(row),
        },
{
    let session = corrupted(KernelSessionId::new(row.session_id.as_str()))?;
    if row.generation < 0 {
        return Err(corrupt("a stored execution names a negative generation"));
    }
    let generation = KernelGeneration::new(row.generation as u64);
    let execution = corrupted(KernelExecutionId::new(row.execution_id.as_str()))?;
    let key = corrupted(KernelExecutionKey::new(session, generation, execution))?;
    if row.sequence < 0 {
        return Err(corrupt("a stored execution holds a negative sequence"));
    }
    let sequence: u64 = row.sequence as u64;
    let settled = same_text(row.state.as_str(), "settled");
    if !settled && !same_text(row.state.as_str(), "in_flight") {
        let name = quoted(row.state.as_str());
        return Err(KernelError::Corrupt(two("unknown execution state ", name.as_str())));
    }
    let owner = read_owner(row.owner.as_str())?;
    if row.started_at_ms < 0 {
        return Err(corrupt("a stored execution holds a negative instant"));
    }
    let started_at_ms: u64 = row.started_at_ms as u64;
    let record = match row.submission {
        Ok(record) => record,
        Err(words) => {
            return Err(
                KernelError::Corrupt(two("a stored submission is undecodable: ", words.as_str())),
            );
        },
    };
    corrupted(record.bounds.validate())?;
    let receipt = match (row.receipt, row.receipt_digest) {
        (None, None) => {
            if settled {
                return Err(
                    corrupt("a stored execution's state and receipt disagree with each other"),
                );
            }
            None
        },
        (Some(receipt), Some(digest)) => {
            if !settled {
                return Err(
                    corrupt("a stored execution's state and receipt disagree with each other"),
                );
            }
            let receipt = match receipt {
                Ok(receipt) => receipt,
                Err(words) => {
                    return Err(
                        KernelError::Corrupt(
                            two("a stored kernel receipt is undecodable: ", words.as_str()),
                        ),
                    );
                },
            };
            let expected = read_digest(digest.as_str())?;
            receipt.verify(&expected)?;
            if !receipt.key.same(&key) {
                return Err(corrupt("a stored kernel receipt names another execution"));
            }
            Some(receipt)
        },
        _ => {
            return Err(corrupt("a stored execution's state and receipt disagree with each other"));
        },
    };
    Ok(StoredKernelExecution { key, sequence, owner, started_at_ms, record, receipt })
}

/// What a stored incarnation says of its session to a handle.
pub open spec fn session_status(stored: IncarnationView, owned: bool) -> Result<
    SessionStatusView,
    KernelFault,
> {
    match stored.receipt {
        Some(receipt) => Ok(SessionStatusView::Settled(receipt)),
        None => if stored.pid == 0 {
            Err(
                KernelFault::Corrupt(
                    ProgramFault::Validation("process identity names no process"@).words(),
                ),
            )
        } else if owned {
            Ok(
                SessionStatusView::Live {
                    generation: stored.generation,
                    process: (stored.pid, stored.owner),
                    opened_at_ms: stored.opened_at_ms,
                    executions: stored.executions,
                },
            )
        } else {
            Ok(
                SessionStatusView::Uncertain {
                    generation: stored.generation,
                    process: (stored.pid, stored.owner),
                    opened_at_ms: stored.opened_at_ms,
                    executions: stored.executions,
                },
            )
        },
    }
}

/// Checks that a stored execution stands under its own key.
pub fn check_addressed(stored: &StoredKernelExecution, key: &KernelExecutionKey) -> (r: Result<
    (),
    KernelError,
>)
    ensures
        kernel_fault(r) == if stored@.key == key@ {
            None
        } else {
            Some(KernelFault::Corrupt("a stored execution does not address its own key"@))
        },
{
    if !stored.key.same(key) {
        return Err(corrupt("a stored execution does not address its own key"));
    }
    Ok(())
}

/// Reads the number of a session's current incarnation.
pub fn stored_generation(value: i64) -> (r: Result<KernelGeneration, KernelError>)
    ensures
        if value < 0 {
            kernel_fault(r) == Some(
                KernelFault::Corrupt("a stored session names a negative generation"@),
            )
        } else {
            r is Ok && r->Ok_0.0 == value
        },
{
    if value < 0 {
        return Err(corrupt("a stored session names a negative generation"));
    }
    Ok(KernelGeneration::new(value as u64))
}

/// What a stored incarnation says of its session to the handle with the token `owner`, which
/// holds the session's process or not.
pub fn inspect_session(stored: StoredIncarnation, owner: &ProgramLabel, held: bool) -> (r: Result<
    KernelSessionStatus,
    KernelError,
>)
    ensures
        match session_status(stored@, stored@.owner == owner@ && held) {
            Ok(status) => r is Ok && r->Ok_0@ == status,
            Err(e) => kernel_fault(r) == Some(e),
        },
{
    if let Some(receipt) = stored.receipt {
        return Ok(KernelSessionStatus::Settled(receipt));
    }
    let owned = stored.owner.same(owner) && held;
    let process = match ProcessIdentity::new(stored.pid, stored.owner) {
        Ok(process) => process,
        Err(error) => {
            return Err(KernelError::Corrupt(error.describe()));
        },
    };
    if owned {
        Ok(
            KernelSessionStatus::Live {
                generation: stored.generation,
                process,
                opened_at_ms: stored.opened_at_ms,
                executions: stored.executions,
            },
        )
    } else {
        Ok(
            KernelSessionStatus::Uncertain {
                generation: stored.generation,
                process,
                opened_at_ms: stored.opened_at_ms,
                executions: stored.executions,
            },
        )
    }
}

/// What a stored execution says of itself to a handle.
pub open spec fn execution_status(stored: KernelExecutionView, owned: bool) -> ExecutionStatusView {
    match stored.receipt {
        Some(receipt) => ExecutionStatusView::Settled(receipt),
        None => if owned {
            ExecutionStatusView::InFlight {
                sequence: stored.sequence,
                started_at_ms: stored.started_at_ms,
            }
        } else {
            ExecutionStatusView::Uncertain {
                sequence: stored.sequence,
                started_at_ms: stored.started_at_ms,
            }
        },
    }
}

/// What a stored execution says of itself to the handle with the token `owner`, which has it in
/// flight or not.
pub fn inspect_execution(stored: StoredKernelExecution, owner: &ProgramLabel, in_flight: bool) -> (r:
    KernelExecutionStatus)
    ensures
        r@ == execution_status(stored@, stored@.owner == owner@ && in_flight),
{
    if let Some(receipt) = stored.receipt {
        return KernelExecutionStatus::Settled(receipt);
    }
    if stored.owner.same(owner) && in_flight {
        KernelExecutionStatus::InFlight {
            sequence: stored.sequence,
            started_at_ms: stored.started_at_ms,
        }
    } else {
        KernelExecutionStatus::Uncertain {
            sequence: stored.sequence,
            started_at_ms: stored.started_at_ms,
        }
    }
}

/// Why a session that is not held live here cannot be used.
pub open spec fn absence(status: Option<SessionStatusView>, session: Seq<char>) -> KernelFault {
    match status {
        Some(SessionStatusView::Settled(_)) => KernelFault::NotLive(session),
        Some(_) => KernelFault::Unowned(session),
        None => KernelFault::SessionNotFound(session),
    }
}

/// Says why a session that is not held live here cannot be used.
pub fn refuse_absent(status: &Option<KernelSessionStatus>, session: &KernelSessionId) -> (r:
    KernelError)
    ensures
        r@ == absence(
            match *status {
                Some(s) => Some(s@),
                None => None,
            },
            session@,
        ),
{
    match status {
        Some(KernelSessionStatus::Settled(_)) => KernelError::NotLive(session.duplicate()),
        Some(_) => KernelError::Unowned(session.duplicate()),
        None => KernelError::SessionNotFound(session.duplicate()),
    }
}

/// What is known of an incarnation whose process is held here.
pub struct LiveSession {
    pub generation: KernelGeneration,
    pub spec_digest: ArtifactDigest,
    pub bounds: KernelSessionBounds,
    pub executions: u64,
    pub last_activity_ms: u64,
    /// The execution that is in flight.
    pub in_flight: Option<KernelExecutionId>,
}

/// What a [`LiveSession`] says.
pub struct LiveView {
    pub generation: u64,
    pub spec_digest: Seq<char>,
    pub bounds: SessionBoundsView,
    pub executions: u64,
    pub last_activity_ms: u64,
    pub in_flight: Option<Seq<char>>,
}

impl View for LiveSession {
    type V = LiveView;

    open spec fn view(&self) -> LiveView {
        LiveView {
            generation: self.generation.0,
            spec_digest: self.spec_digest@,
            bounds: self.bounds@,
            executions: self.executions,
            last_activity_ms: self.last_activity_ms,
            in_flight: match self.in_flight {
                Some(id) => Some(id@),
                None => None,
            },
        }
    }
}

/// What a submission leads to.
pub enum SubmitView {
    /// The session was idle too long: it settles so and is not live.
    Expire,
    /// The session may take no more executions: it settles so and is not live.
    Ceiling,
    /// The execution takes its place, and the frame is handed to the kernel.
    Run { sequence: u64, record: SubmissionRecordView, frame: Seq<char> },
}

/// A decision on a submission.
#[derive(Debug, PartialEq, Eq)]
pub enum SubmitDecision {
    Expire,
    Ceiling,
    Run { sequence: u64, record: SubmissionRecord, frame: String },
}

impl View for SubmitDecision {
    type V = SubmitView;

    open spec fn view(&self) -> SubmitView {
        match self {
            SubmitDecision::Expire => SubmitView::Expire,
            SubmitDecision::Ceiling => SubmitView::Ceiling,
            SubmitDecision::Run { sequence, record, frame } => SubmitView::Run {
                sequence: *sequence,
                record: record@,
                frame: frame@,
            },
        }
    }
}

/// The ceiling on executions.
pub const CEILING_EXECUTIONS: &'static str = "max_executions";

/// The ceiling on captured bytes.
pub const CEILING_CAPTURED_BYTES: &'static str = "max_captured_bytes";

/// A directive with a body: its name behind a mark, the body with a line end, and the end.
pub open spec fn framed_body(directive: Seq<char>, body: Seq<char>) -> Seq<char> {
    "\x1e\x1e"@ + directive + "\n"@ + body + (if body.len() > 0 && body.last() != '\n' {
        "\n"@
    } else {
        Seq::empty()
    }) + "\x1e\x1eend\n"@
}

/// Writes a directive with a body.
pub fn frame_body(directive: &str, body: &str) -> (r: String)
    ensures
        r@ == framed_body(directive@, body@),
{
    let mut out = "\x1e\x1e".to_owned();
    out.append(directive);
    out.append("\n");
    out.append(body);
    let ghost so_far = "\x1e\x1e"@ + directive@ + "\n"@ + body@;
    let chars = crate::text::chars_of(body);
    if chars.len() > 0 && chars[chars.len() - 1] != '\n' {
        out.append("\n");
    } else {
        assert(so_far + Seq::<char>::empty() =~= so_far);
    }
    out.append("\x1e\x1eend\n");
    out
}

/// Whether a text holds the byte of the frame mark.
pub open spec fn holds_mark(text: Seq<char>) -> bool {
    exists|i: int| 0 <= i < text.len() && #[trigger] text[i] == '\x1e'
}

/// What a submission to a live session leads to, or why it is refused. A refused submission takes
/// no place, so the sequence has no gaps.
pub open spec fn submit_outcome(
    key: KeyView,
    submission: SubmissionView,
    live: Result<LiveView, KernelFault>,
    now_ms: u64,
) -> Result<SubmitView, KernelFault> {
    match first_of(key_fault(key), submission_fault(submission)) {
        Some(e) => Err(e),
        None => if holds_mark(submission.source) {
            Err(KernelFault::Validation("a submission's source contains the protocol frame mark"@))
        } else {
            match live {
                Err(e) => Err(e),
                Ok(live) => if live.generation != key.generation {
                    Err(
                        KernelFault::Conflict(
                            "kernel session "@ + key.session + " is incarnation "@ + decimal(
                                live.generation as nat,
                            ) + " and not "@ + decimal(key.generation as nat),
                        ),
                    )
                } else if duration(live.last_activity_ms, now_ms) > live.bounds.idle_deadline_ms {
                    Ok(SubmitView::Expire)
                } else if live.executions >= live.bounds.max_executions {
                    Ok(SubmitView::Ceiling)
                } else if live.in_flight is Some {
                    Err(
                        KernelFault::Conflict(
                            "kernel session "@ + key.session + " is already executing "@
                                + live.in_flight->Some_0,
                        ),
                    )
                } else {
                    Ok(
                        SubmitView::Run {
                            sequence: (live.executions + 1) as u64,
                            record: SubmissionRecordView {
                                source_digest: source_identity(submission.source),
                                spec_digest: live.spec_digest,
                                bounds: submission.bounds,
                            },
                            frame: framed_body("exec"@, submission.source),
                        },
                    )
                },
            }
        },
    }
}

/// What is known of the session that a submission goes to: it is held live here, or why it cannot
/// be used.
pub open spec fn live_view(live: Result<LiveSession, KernelError>) -> Result<LiveView, KernelFault> {
    match live {
        Ok(live) => Ok(live@),
        Err(e) => Err(e@),
    }
}

/// Decides on a submission.
pub fn decide_submit(
    key: &KernelExecutionKey,
    submission: &KernelSubmission,
    live: Result<LiveSession, KernelError>,
    now_ms: u64,
) -> (r: Result<SubmitDecision, KernelError>)
    ensures
        match submit_outcome(key@, submission@, live_view(live), now_ms) {
            Ok(decision) => r is Ok && r->Ok_0@ == decision,
            Err(e) => kernel_fault(r) == Some(e),
        },
{
    key.validate()?;
    submission.validate()?;
    if holds_char(submission.source(), '\x1e') {
        return Err(validation("a submission's source contains the protocol frame mark"));
    }
    let live = match live {
        Ok(live) => live,
        Err(error) => {
            return Err(error);
        },
    };
    if live.generation.get() != key.generation().get() {
        let mut message = three("kernel session ", key.session().as_str(), " is incarnation ");
        push_decimal(&mut message, live.generation.get());
        message.append(" and not ");
        push_decimal(&mut message, key.generation().get());
        return Err(KernelError::Conflict(message));
    }
    if now_ms.saturating_sub(live.last_activity_ms) > live.bounds.idle_deadline_ms() {
        return Ok(SubmitDecision::Expire);
    }
    if live.executions >= live.bounds.max_executions() {
        return Ok(SubmitDecision::Ceiling);
    }
    if let Some(running) = &live.in_flight {
        let mut message = three("kernel session ", key.session().as_str(), " is already executing ");
        message.append(running.as_str());
        return Err(KernelError::Conflict(message));
    }
    Ok(
        SubmitDecision::Run {
            sequence: live.executions + 1,
            record: SubmissionRecord {
                source_digest: submission.source_digest(),
                spec_digest: live.spec_digest,
                bounds: submission.bounds(),
            },
            frame: frame_body("exec", submission.source()),
        },
    )
}

/// An execution that runs takes the next place in its incarnation, and none runs while another is
/// in flight.
pub proof fn law_sequences_are_dense(
    key: KeyView,
    submission: SubmissionView,
    live: LiveView,
    now_ms: u64,
)
    ensures
        submit_outcome(key, submission, Ok(live), now_ms) matches Ok(SubmitView::Run { sequence, .. })
            ==> sequence == live.executions + 1 && sequence <= live.bounds.max_executions
            && live.in_flight is None && key.generation == live.generation,
{
}

/// The refusal of an execution that the store knew already.
pub fn known_execution(key: &KernelExecutionKey) -> (r: KernelError)
    ensures
        r@ == KernelFault::Conflict(
            "kernel execution "@ + key@.execution + " is already known in session "@ + key@.session,
        ),
{
    let mut message = three(
        "kernel execution ",
        key.execution().as_str(),
        " is already known in session ",
    );
    message.append(key.session().as_str());
    KernelError::Conflict(message)
}

/// What a look at an execution in flight leads to.
#[derive(Clone, Copy, Debug, PartialEq, Eq, Structural)]
pub enum WaitStep {
    /// Both streams have ended their segment.
    Settle,
    /// Interrupt the kernel: the execution was cancelled.
    InterruptCancelled,
    /// Interrupt the kernel: the deadline passed.
    InterruptTimedOut,
    /// The kernel did not answer the interrupt: kill it.
    Kill,
    Look,
}

/// Why an execution is being stopped.
#[derive(Clone, Copy, Debug, PartialEq, Eq, Structural)]
pub enum StopCause {
    Cancelled,
    TimedOut,
}

/// What a look at an execution in flight leads to.
pub open spec fn wait_step(
    both_ended: bool,
    stopping: Option<StopCause>,
    cancelled: bool,
    elapsed_ms: u64,
    deadline_ms: u64,
    grace_over: bool,
) -> WaitStep {
    if both_ended {
        WaitStep::Settle
    } else if stopping is None {
        if cancelled {
            WaitStep::InterruptCancelled
        } else if elapsed_ms >= deadline_ms {
            WaitStep::InterruptTimedOut
        } else {
            WaitStep::Look
        }
    } else if grace_over {
        WaitStep::Kill
    } else {
        WaitStep::Look
    }
}

/// Decides on an execution in flight. `grace_over` tells whether the kernel was interrupted and
/// has had its time to answer.
pub fn look_at_execution(
    both_ended: bool,
    stopping: Option<StopCause>,
    cancelled: bool,
    elapsed_ms: u64,
    deadline_ms: u64,
    grace_over: bool,
) -> (r: WaitStep)
    ensures
        r == wait_step(both_ended, stopping, cancelled, elapsed_ms, deadline_ms, grace_over),
{
    if both_ended {
        WaitStep::Settle
    } else if stopping.is_none() {
        if cancelled {
            WaitStep::InterruptCancelled
        } else if elapsed_ms >= deadline_ms {
            WaitStep::InterruptTimedOut
        } else {
            WaitStep::Look
        }
    } else if grace_over {
        WaitStep::Kill
    } else {
        WaitStep::Look
    }
}

/// How an execution ended, by what the kernel said on both streams and why it was being stopped.
/// Without both frames the kernel died, whatever was asked of it.
pub open spec fn end_of(
    stdout: Option<FrameView>,
    stderr: Option<FrameView>,
    stopping: Option<StopCause>,
) -> EndView {
    match (stdout, stderr) {
        (Some(status), Some(_)) => match status {
            FrameView::Done => EndView::Completed,
            FrameView::Raised(label) => EndView::Raised { error_class: label },
            FrameView::Cancelled => match stopping {
                Some(StopCause::TimedOut) => EndView::TimedOut,
                _ => EndView::Cancelled,
            },
            FrameView::Rejected(label) => EndView::Raised { error_class: label },
        },
        _ => EndView::KernelDied,
    }
}

/// Says how an execution ended.
pub fn execution_end(
    stdout: &Option<FrameStatus>,
    stderr: &Option<FrameStatus>,
    stopping: Option<StopCause>,
) -> (r: KernelExecutionDisposition)
    ensures
        r@ == end_of(
            match *stdout {
                Some(s) => Some(s@),
                None => None,
            },
            match *stderr {
                Some(s) => Some(s@),
                None => None,
            },
            stopping,
        ),
{
    match (stdout, stderr) {
        (Some(status), Some(_)) => match status {
            FrameStatus::Done => KernelExecutionDisposition::Completed,
            FrameStatus::Raised(label) => KernelExecutionDisposition::Raised {
                error_class: label.duplicate(),
            },
            FrameStatus::Cancelled => match stopping {
                Some(StopCause::TimedOut) => KernelExecutionDisposition::TimedOut,
                _ => KernelExecutionDisposition::Cancelled,
            },
            FrameStatus::Rejected(label) => KernelExecutionDisposition::Raised {
                error_class: label.duplicate(),
            },
        },
        _ => KernelExecutionDisposition::KernelDied,
    }
}

/// An execution counts as completed only when the kernel said so on both streams: a cancel, a
/// deadline or a death never becomes a success.
pub proof fn law_success_is_never_fabricated(
    stdout: Option<FrameView>,
    stderr: Option<FrameView>,
    stopping: Option<StopCause>,
)
    ensures
        end_of(stdout, stderr, stopping) is Completed <==> stdout == Some(FrameView::Done) && stderr
            is Some,
{
}

/// An execution ends as the kernel said on its first stream, if both streams ended with a frame:
/// it was raised with a class exactly where that frame was raised or rejected with it, and it was
/// stopped exactly where that frame says so, by the deadline where the deadline was the cause and
/// by a cancel otherwise. It ends with the kernel's death exactly where a frame is missing. What
/// the other frame says, and why a kernel was being stopped that did not say that it stopped,
/// changes nothing.
pub proof fn law_ends_tell_what_the_kernel_said(
    stdout: Option<FrameView>,
    stderr: Option<FrameView>,
    stopping: Option<StopCause>,
    class: Seq<char>,
)
    ensures
        ({
            let end = end_of(stdout, stderr, stopping);
            let both = stdout is Some && stderr is Some;
            let timed_out = stopping == Some(StopCause::TimedOut);
            &&& end is KernelDied <==> !both
            &&& end is Completed <==> both && stdout == Some(FrameView::Done)
            &&& end == (EndView::Raised { error_class: class }) <==> both && (stdout == Some(
                FrameView::Raised(class),
            ) || stdout == Some(FrameView::Rejected(class)))
            &&& end is TimedOut <==> both && stdout == Some(FrameView::Cancelled) && timed_out
            &&& end is Cancelled <==> both && stdout == Some(FrameView::Cancelled) && !timed_out
        }),
        forall|other: FrameView, cause: Option<StopCause>|
            stderr is Some && stdout != Some(FrameView::Cancelled) ==> #[trigger] end_of(
                stdout,
                Some(other),
                cause,
            ) == end_of(stdout, stderr, stopping),
{
}

/// What becomes of the session behind an execution.
pub enum AfterView {
    /// The session goes on.
    Continue,
    /// The kernel is gone.
    Died(SessionEndView),
    /// The session captured more than it may.
    Ceiling,
}

/// A decision on the session behind an execution.
#[derive(Debug, PartialEq, Eq)]
pub enum AfterExecution {
    Continue,
    Died(KernelDisposition),
    Ceiling,
}

impl View for AfterExecution {
    type V = AfterView;

    open spec fn view(&self) -> AfterView {
        match self {
            AfterExecution::Continue => AfterView::Continue,
            AfterExecution::Died(disposition) => AfterView::Died(disposition@),
            AfterExecution::Ceiling => AfterView::Ceiling,
        }
    }
}

/// What becomes of the session behind an execution.
pub open spec fn after_end(
    end: EndView,
    exit_code: Option<i32>,
    captured_bytes: u64,
    max_captured_bytes: u64,
) -> AfterView {
    if end is KernelDied {
        AfterView::Died(
            match exit_code {
                Some(code) => SessionEndView::Exited { code },
                None => SessionEndView::Interrupted,
            },
        )
    } else if captured_bytes > max_captured_bytes {
        AfterView::Ceiling
    } else {
        AfterView::Continue
    }
}

/// Decides what becomes of the session behind an execution.
pub fn after_execution(
    disposition: &KernelExecutionDisposition,
    exit_code: Option<i32>,
    captured_bytes: u64,
    max_captured_bytes: u64,
) -> (r: AfterExecution)
    ensures
        r@ == after_end(disposition@, exit_code, captured_bytes, max_captured_bytes),
{
    match disposition {
        KernelExecutionDisposition::KernelDied => AfterExecution::Died(
            match exit_code {
                Some(code) => KernelDisposition::Exited { code },
                None => KernelDisposition::Interrupted,
            },
        ),
        _ => if captured_bytes > max_captured_bytes {
            AfterExecution::Ceiling
        } else {
            AfterExecution::Continue
        },
    }
}

/// The receipt of an execution that settled here.
pub open spec fn settled_receipt(
    key: KeyView,
    sequence: u64,
    record: SubmissionRecordView,
    end: EndView,
    started_at_ms: u64,
    elapsed_ms: u64,
    stdout: CaptureView,
    stderr: CaptureView,
) -> ExecutionReceiptView {
    ExecutionReceiptView {
        key,
        sequence,
        source_digest: record.source_digest,
        spec_digest: record.spec_digest,
        bounds: record.bounds,
        disposition: end,
        started_at_ms,
        settled_at_ms: if started_at_ms + elapsed_ms > u64::MAX {
            u64::MAX
        } else {
            (started_at_ms + elapsed_ms) as u64
        },
        stdout: Some(stdout),
        stderr: Some(stderr),
        checkpoint: None,
    }
}

/// Makes the receipt of an execution that settled here.
pub fn execution_receipt(
    key: &KernelExecutionKey,
    sequence: u64,
    record: &SubmissionRecord,
    disposition: KernelExecutionDisposition,
    started_at_ms: u64,
    elapsed_ms: u64,
    stdout: CaptureRecord,
    stderr: CaptureRecord,
) -> (r: KernelExecutionReceipt)
    ensures
        r@ == settled_receipt(
            key@,
            sequence,
            record@,
            disposition@,
            started_at_ms,
            elapsed_ms,
            stdout@,
            stderr@,
        ),
{
    KernelExecutionReceipt {
        key: key.duplicate(),
        sequence,
        source_digest: record.source_digest.duplicate(),
        spec_digest: record.spec_digest.duplicate(),
        bounds: record.bounds,
        disposition,
        started_at_ms,
        settled_at_ms: started_at_ms.saturating_add(elapsed_ms),
        stdout: Some(stdout),
        stderr: Some(stderr),
        checkpoint: None,
    }
}

/// What settling an execution answers: the receipt that stands already, or the new one when the
/// execution is still in flight.
pub open spec fn settle_execution_outcome(
    stored: Option<ExecutionReceiptView>,
    in_flight: bool,
    receipt: ExecutionReceiptView,
) -> Result<(ExecutionReceiptView, bool), KernelFault> {
    match stored {
        Some(known) => Ok((known, false)),
        None => if in_flight {
            Ok((receipt, true))
        } else {
            Err(KernelFault::ExecutionNotFound(receipt.key.execution))
        },
    }
}

/// Settles an execution, and says whether the receipt is to be written. A second settlement
/// replays the first.
pub fn settle_execution(
    stored: Option<KernelExecutionReceipt>,
    in_flight: bool,
    receipt: KernelExecutionReceipt,
) -> (r: Result<(KernelExecutionReceipt, bool), KernelError>)
    ensures
        match settle_execution_outcome(
            match stored {
                Some(known) => Some(known@),
                None => None,
            },
            in_flight,
            receipt@,
        ) {
            Ok((settled, write)) => r is Ok && r->Ok_0.0@ == settled && r->Ok_0.1 == write,
            Err(e) => kernel_fault(r) == Some(e),
        },
{
    match stored {
        Some(known) => Ok((known, false)),
        None => if in_flight {
            Ok((receipt, true))
        } else {
            Err(KernelError::ExecutionNotFound(receipt.key.execution().duplicate()))
        },
    }
}

/// The bytes that an execution captured.
pub open spec fn captured_of(receipt: ExecutionReceiptView) -> nat {
    (match receipt.stdout {
        Some(c) => c.captured_bytes as nat,
        None => 0,
    }) + (match receipt.stderr {
        Some(c) => c.captured_bytes as nat,
        None => 0,
    })
}

/// Counts the bytes that an execution captured.
pub fn captured_bytes(receipt: &KernelExecutionReceipt) -> (r: u64)
    requires
        captured_of(receipt@) <= u64::MAX,
    ensures
        r == captured_of(receipt@),
{
    let out: u64 = match &receipt.stdout {
        Some(c) => c.captured_bytes,
        None => 0,
    };
    let err: u64 = match &receipt.stderr {
        Some(c) => c.captured_bytes,
        None => 0,
    };
    out + err
}

/// The receipt of an execution that was in flight when its session settled. Its output is absent,
/// not empty: nobody read it.
pub open spec fn orphan_receipt(
    pending: KernelExecutionView,
    end: EndView,
    now_ms: u64,
) -> ExecutionReceiptView {
    ExecutionReceiptView {
        key: pending.key,
        sequence: pending.sequence,
        source_digest: pending.record.source_digest,
        spec_digest: pending.record.spec_digest,
        bounds: pending.record.bounds,
        disposition: end,
        started_at_ms: pending.started_at_ms,
        settled_at_ms: later(now_ms, pending.started_at_ms),
        stdout: None,
        stderr: None,
        checkpoint: None,
    }
}

/// What each execution says.
pub open spec fn pending_views(pending: Seq<StoredKernelExecution>) -> Seq<KernelExecutionView> {
    Seq::new(pending.len(), |i: int| pending[i]@)
}

/// What each receipt says.
pub open spec fn receipt_views(receipts: Seq<KernelExecutionReceipt>) -> Seq<ExecutionReceiptView> {
    Seq::new(receipts.len(), |i: int| receipts[i]@)
}

/// The receipt of a session that settles.
pub open spec fn session_receipt_of(
    session: Seq<char>,
    stored: IncarnationView,
    end: SessionEndView,
    now_ms: u64,
) -> SessionReceiptView {
    SessionReceiptView {
        session,
        generation: stored.generation,
        spec_digest: stored.spec.spec_digest,
        disposition: end,
        opened_at_ms: stored.opened_at_ms,
        settled_at_ms: later(now_ms, stored.opened_at_ms),
        executions: stored.executions,
        captured_bytes: stored.captured_bytes,
    }
}

/// What settling a session writes: its receipt, and one for every execution still in flight, in
/// one transaction. A session that settled before keeps what it has.
pub struct SessionSettlement {
    pub receipt: KernelSessionReceipt,
    pub executions: Vec<KernelExecutionReceipt>,
    /// Whether the receipts are new and are to be written.
    pub write: bool,
}

/// Settles an incarnation and every execution in flight under it. `settled` are the receipts that
/// its executions have; of a session that settled before, those with the same end are given.
#[verifier::loop_isolation(false)]
pub fn settle_session(
    session: &KernelSessionId,
    stored: StoredIncarnation,
    pending: &Vec<StoredKernelExecution>,
    settled: &Vec<KernelExecutionReceipt>,
    disposition: &KernelDisposition,
    in_flight: &KernelExecutionDisposition,
    now_ms: u64,
) -> (r: SessionSettlement)
    ensures
        match stored@.receipt {
            Some(known) => {
                &&& r.receipt@ == known
                &&& !r.write
                &&& receipt_views(r.executions@) == receipt_views(settled@).filter(
                    |e: ExecutionReceiptView| e.disposition == in_flight@,
                )
            },
            None => {
                &&& r.receipt@ == session_receipt_of(session@, stored@, disposition@, now_ms)
                &&& r.write
                &&& receipt_views(r.executions@) == pending_views(pending@).map_values(
                    |p: KernelExecutionView| orphan_receipt(p, in_flight@, now_ms),
                )
            },
        },
{
    let mut executions: Vec<KernelExecutionReceipt> = Vec::new();
    if let Some(receipt) = stored.receipt {
        let ghost all = receipt_views(settled@);
        let ghost keep = |e: ExecutionReceiptView| e.disposition == in_flight@;
        let mut i: usize = 0;
        proof {
            assert(all.take(0) =~= Seq::empty());
            reveal(Seq::filter);
            assert(receipt_views(executions@) =~= Seq::empty());
        }
        while i < settled.len()
            invariant
                i <= settled@.len(),
                receipt_views(executions@) == all.take(i as int).filter(keep),
            decreases settled@.len() - i,
        {
            let ghost before = receipt_views(executions@);
            proof {
                assert(all.take(i + 1).drop_last() =~= all.take(i as int));
                assert(all.take(i + 1).last() == settled@[i as int]@);
                reveal(Seq::filter);
            }
            if settled[i].disposition.same(in_flight) {
                executions.push(settled[i].duplicate());
                proof {
                    assert(receipt_views(executions@) =~= before.push(settled@[i as int]@));
                }
            }
            i += 1;
        }
        proof {
            assert(all.take(all.len() as int) =~= all);
        }
        return SessionSettlement { receipt, executions, write: false };
    }
    let mut i: usize = 0;
    while i < pending.len()
        invariant
            i <= pending@.len(),
            executions@.len() == i,
            forall|j: int|
                0 <= j < i ==> (#[trigger] executions@[j])@ == orphan_receipt(
                    pending@[j]@,
                    in_flight@,
                    now_ms,
                ),
        decreases pending@.len() - i,
    {
        let item = &pending[i];
        executions.push(
            KernelExecutionReceipt {
                key: item.key.duplicate(),
                sequence: item.sequence,
                source_digest: item.record.source_digest.duplicate(),
                spec_digest: item.record.spec_digest.duplicate(),
                bounds: item.record.bounds,
                disposition: in_flight.duplicate(),
                started_at_ms: item.started_at_ms,
                settled_at_ms: if now_ms >= item.started_at_ms {
                    now_ms
                } else {
                    item.started_at_ms
                },
                stdout: None,
                stderr: None,
                checkpoint: None,
            },
        );
        i += 1;
    }
    proof {
        assert(receipt_views(executions@) =~= pending_views(pending@).map_values(
            |p: KernelExecutionView| orphan_receipt(p, in_flight@, now_ms),
        ));
    }
    let receipt = KernelSessionReceipt {
        session: session.duplicate(),
        generation: stored.generation,
        spec_digest: stored.spec.spec_digest,
        disposition: disposition.duplicate(),
        opened_at_ms: stored.opened_at_ms,
        settled_at_ms: if now_ms >= stored.opened_at_ms {
            now_ms
        } else {
            stored.opened_at_ms
        },
        executions: stored.executions,
        captured_bytes: stored.captured_bytes,
    };
    SessionSettlement { receipt, executions, write: true }
}

/// The receipts that settling a session writes pass the checks that stored receipts must pass,
/// and none of them claims success.
pub proof fn law_orphans_settle_soundly(pending: KernelExecutionView, end: EndView, now_ms: u64)
    requires
        key_fault(pending.key) is None,
        execution_bounds_fault(pending.record.bounds) is None,
        pending.sequence > 0,
        !(end is Completed),
    ensures
        ({
            let receipt = orphan_receipt(pending, end, now_ms);
            &&& execution_receipt_fault(receipt, execution_identity(receipt)) is None
            &&& !(receipt.disposition is Completed)
            &&& receipt.stdout is None && receipt.stderr is None
        }),
{
}

/// How a frame status looks in a message.
pub open spec fn status_shown(status: FrameView) -> Seq<char> {
    match status {
        FrameView::Done => "Done"@,
        FrameView::Raised(label) => "Raised(KernelLabel("@ + debug_quoted(label) + "))"@,
        FrameView::Cancelled => "Cancelled"@,
        FrameView::Rejected(label) => "Rejected(KernelLabel("@ + debug_quoted(label) + "))"@,
    }
}

fn show_status(status: &FrameStatus) -> (r: String)
    ensures
        r@ == status_shown(status@),
{
    match status {
        FrameStatus::Done => "Done".to_owned(),
        FrameStatus::Raised(label) => {
            let name = quoted(label.as_str());
            three("Raised(KernelLabel(", name.as_str(), "))")
        },
        FrameStatus::Cancelled => "Cancelled".to_owned(),
        FrameStatus::Rejected(label) => {
            let name = quoted(label.as_str());
            three("Rejected(KernelLabel(", name.as_str(), "))")
        },
    }
}

/// What a kernel's answer to a checkpoint comes to: nothing yet when the kernel died, else the
/// declarations, or why the snapshot is refused.
pub open spec fn snapshot_answer(stdout: SegmentView, stderr: SegmentView) -> Result<
    Option<(Seq<CarriedView>, Seq<LossView>)>,
    KernelFault,
> {
    match stdout.status {
        None => Ok(None),
        Some(FrameView::Done) => if stdout.capture.produced_bytes > stdout.capture.content.len() {
            Err(
                KernelFault::Validation(
                    "kernel snapshot exceeds "@ + decimal(MAX_KERNEL_CHECKPOINT_BYTES as nat)
                        + " bytes"@,
                ),
            )
        } else if stderr.capture.content.len() > 0 {
            Err(KernelFault::Corrupt("a kernel wrote to stderr while producing a snapshot"@))
        } else {
            match snapshot_outcome(stdout.capture.content) {
                Ok(facts) => Ok(Some(facts)),
                Err(e) => Err(e),
            }
        },
        Some(other) => Err(
            KernelFault::Start("kernel refused a checkpoint: "@ + status_shown(other)),
        ),
    }
}

/// What a snapshot declares.
pub struct SnapshotFacts {
    pub restorable: Vec<crate::kernel::receipt::RestorableFact>,
    pub non_restorable: Vec<crate::kernel::receipt::NonRestorableFact>,
}

/// Reads a kernel's answer to a checkpoint.
pub fn read_snapshot(stdout: &Segment, stderr: &Segment) -> (r: Result<
    Option<SnapshotFacts>,
    KernelError,
>)
    ensures
        match snapshot_answer(stdout@, stderr@) {
            Ok(Some((carried, lost))) => r is Ok && r->Ok_0 is Some
                && crate::kernel::receipt::carried_views(r->Ok_0->Some_0.restorable@) == carried
                && loss_views(r->Ok_0->Some_0.non_restorable@) == lost,
            Ok(None) => r is Ok && r->Ok_0 is None,
            Err(e) => kernel_fault(r) == Some(e),
        },
{
    match &stdout.status {
        None => {
            return Ok(None);
        },
        Some(FrameStatus::Done) => {},
        Some(other) => {
            let shown = show_status(other);
            return Err(
                KernelError::Start(two("kernel refused a checkpoint: ", shown.as_str())),
            );
        },
    }
    if stdout.capture.produced_bytes > stdout.capture.content.len() as u64 {
        return Err(
            KernelError::Validation(
                numbered("kernel snapshot exceeds ", MAX_KERNEL_CHECKPOINT_BYTES, " bytes"),
            ),
        );
    }
    if stderr.capture.content.len() > 0 {
        return Err(corrupt("a kernel wrote to stderr while producing a snapshot"));
    }
    let (restorable, non_restorable) = parse_snapshot(stdout.capture.content.as_slice())?;
    Ok(Some(SnapshotFacts { restorable, non_restorable }))
}

/// The reference to a checkpoint whose payload was stored under a handle.
pub open spec fn checkpoint_of(
    artifact: Seq<char>,
    session: Seq<char>,
    live: LiveView,
    carried: Seq<CarriedView>,
    lost: Seq<LossView>,
    now_ms: u64,
) -> CheckpointView {
    CheckpointView {
        artifact,
        session,
        generation: live.generation,
        after_sequence: live.executions,
        spec_digest: live.spec_digest,
        taken_at_ms: now_ms,
        restorable: carried,
        non_restorable: lost,
    }
}

/// Makes the reference to a checkpoint whose payload was stored under a handle.
pub fn bind_checkpoint(
    handle: ArtifactHandle,
    payload: &[u8],
    session: &KernelSessionId,
    live: &LiveSession,
    facts: SnapshotFacts,
    now_ms: u64,
) -> (r: Result<KernelCheckpointRef, KernelError>)
    ensures
        ({
            let checkpoint = checkpoint_of(
                handle@,
                session@,
                live@,
                crate::kernel::receipt::carried_views(facts.restorable@),
                loss_views(facts.non_restorable@),
                now_ms,
            );
            if sha256_hex(payload@) != handle@ {
                kernel_fault(r) == Some(
                    KernelFault::Corrupt(
                        "the output sink bound a snapshot to content that is not that snapshot"@,
                    ),
                )
            } else {
                match checkpoint_fault(checkpoint) {
                    Some(e) => kernel_fault(r) == Some(e),
                    None => r is Ok && r->Ok_0@ == checkpoint,
                }
            }
        }),
{
    if !handle.addresses(payload) {
        return Err(corrupt("the output sink bound a snapshot to content that is not that snapshot"));
    }
    let checkpoint = KernelCheckpointRef {
        artifact: handle,
        session: session.duplicate(),
        generation: live.generation,
        after_sequence: live.executions,
        spec_digest: live.spec_digest.duplicate(),
        taken_at_ms: now_ms,
        restorable: facts.restorable,
        non_restorable: facts.non_restorable,
    };
    checkpoint.validate()?;
    Ok(checkpoint)
}

/// Refuses to take a checkpoint of a session that is executing.
pub fn check_checkpoint(session: &KernelSessionId, executing: bool) -> (r: Result<(), KernelError>)
    ensures
        kernel_fault(r) == if executing {
            Some(
                KernelFault::Conflict(
                    "kernel session "@ + session@
                        + " cannot be checkpointed while it is executing"@,
                ),
            )
        } else {
            None
        },
{
    if executing {
        return Err(
            KernelError::Conflict(
                three(
                    "kernel session ",
                    session.as_str(),
                    " cannot be checkpointed while it is executing",
                ),
            ),
        );
    }
    Ok(())
}

/// What a restore leads to before anything is started.
pub enum RestorePlanView {
    /// The checkpoint is another image's.
    Mismatch { expected: Seq<char>, found: Seq<char> },
    /// A new incarnation is to be started under this number.
    Start { generation: u64 },
}

/// A decision on a restore before anything is started.
#[derive(Debug, PartialEq, Eq)]
pub enum RestorePlan {
    Mismatch { expected: ArtifactDigest, found: ArtifactDigest },
    Start { generation: KernelGeneration },
}

impl View for RestorePlan {
    type V = RestorePlanView;

    open spec fn view(&self) -> RestorePlanView {
        match self {
            RestorePlan::Mismatch { expected, found } => RestorePlanView::Mismatch {
                expected: expected@,
                found: found@,
            },
            RestorePlan::Start { generation } => RestorePlanView::Start { generation: generation.0 },
        }
    }
}

/// What is wrong with the dialect of an image.
pub open spec fn protocol_fault(spec: SpecView) -> Option<KernelFault> {
    if spec.protocol == LOCAL_KERNEL_PROTOCOL@ {
        None
    } else {
        Some(
            KernelFault::Validation(
                "this backend speaks "@ + LOCAL_KERNEL_PROTOCOL@ + " and not "@ + spec.protocol,
            ),
        )
    }
}

/// What a restore leads to before anything is started. A session must have settled, and gets the
/// number behind its last.
pub open spec fn restore_outcome(
    session: Seq<char>,
    checkpoint: CheckpointView,
    spec: SpecView,
    root_is_dir: bool,
    status: Option<SessionStatusView>,
) -> Result<RestorePlanView, KernelFault> {
    match first_of(
        spec_fault(spec, root_is_dir),
        first_of(protocol_fault(spec), checkpoint_fault(checkpoint)),
    ) {
        Some(e) => Err(e),
        None => if spec_identity(spec) != checkpoint.spec_digest {
            Ok(
                RestorePlanView::Mismatch {
                    expected: checkpoint.spec_digest,
                    found: spec_identity(spec),
                },
            )
        } else {
            match status {
                None => Err(KernelFault::SessionNotFound(session)),
                Some(SessionStatusView::Settled(receipt)) => if receipt.generation == u64::MAX {
                    Err(KernelFault::Corrupt("kernel session generations are exhausted"@))
                } else {
                    Ok(RestorePlanView::Start { generation: (receipt.generation + 1) as u64 })
                },
                Some(_) => Err(
                    KernelFault::Conflict(
                        "kernel session "@ + session
                            + " must be closed or reconciled before it is restored"@,
                    ),
                ),
            }
        },
    }
}

/// Decides on a restore before anything is started.
pub fn plan_restore(
    session: &KernelSessionId,
    checkpoint: &KernelCheckpointRef,
    spec: &KernelSpec,
    root_is_dir: bool,
    status: &Option<KernelSessionStatus>,
) -> (r: Result<RestorePlan, KernelError>)
    ensures
        match restore_outcome(
            session@,
            checkpoint@,
            spec@,
            root_is_dir,
            match *status {
                Some(s) => Some(s@),
                None => None,
            },
        ) {
            Ok(plan) => r is Ok && r->Ok_0@ == plan,
            Err(e) => kernel_fault(r) == Some(e),
        },
{
    spec.validate(root_is_dir)?;
    spec.ensure_protocol()?;
    checkpoint.validate()?;
    let offered = spec.spec_digest();
    if !offered.same(&checkpoint.spec_digest) {
        return Ok(
            RestorePlan::Mismatch {
                expected: checkpoint.spec_digest.duplicate(),
                found: offered,
            },
        );
    }
    match status {
        None => Err(KernelError::SessionNotFound(session.duplicate())),
        Some(KernelSessionStatus::Settled(receipt)) => match receipt.generation.next() {
            Some(generation) => Ok(RestorePlan::Start { generation }),
            None => Err(corrupt("kernel session generations are exhausted")),
        },
        Some(_) => Err(
            KernelError::Conflict(
                three(
                    "kernel session ",
                    session.as_str(),
                    " must be closed or reconciled before it is restored",
                ),
            ),
        ),
    }
}

/// Each incarnation that a restore starts has a number that no incarnation before it had.
pub proof fn law_generations_only_grow(
    session: Seq<char>,
    checkpoint: CheckpointView,
    spec: SpecView,
    root_is_dir: bool,
    receipt: SessionReceiptView,
)
    ensures
        restore_outcome(
            session,
            checkpoint,
            spec,
            root_is_dir,
            Some(SessionStatusView::Settled(receipt)),
        ) matches Ok(RestorePlanView::Start { generation }) ==> generation > receipt.generation,
        checkpoint.spec_digest != spec_identity(spec) ==> !(restore_outcome(
            session,
            checkpoint,
            spec,
            root_is_dir,
            Some(SessionStatusView::Settled(receipt)),
        ) matches Ok(RestorePlanView::Start { .. })),
{
}

/// Refuses a stored payload that is not the one the checkpoint names.
pub fn check_payload(checkpoint: &KernelCheckpointRef, payload: Option<&[u8]>) -> (r: Result<
    (),
    KernelError,
>)
    ensures
        kernel_fault(r) == match payload {
            None => Some(
                KernelFault::Corrupt("a checkpoint's payload is not held by this authority"@),
            ),
            Some(bytes) => if sha256_hex(bytes@) == checkpoint@.artifact {
                None
            } else {
                Some(
                    KernelFault::Corrupt(
                        "a stored snapshot does not address to the checkpoint that names it"@,
                    ),
                )
            },
        },
{
    match payload {
        None => Err(corrupt("a checkpoint's payload is not held by this authority")),
        Some(bytes) => if checkpoint.artifact.addresses(bytes) {
            Ok(())
        } else {
            Err(corrupt("a stored snapshot does not address to the checkpoint that names it"))
        },
    }
}

/// What the kernel's answer to a restore comes to.
pub open spec fn restore_answer(status: Option<FrameView>) -> Result<Option<Seq<char>>, KernelFault> {
    match status {
        Some(FrameView::Done) => Ok(None),
        Some(FrameView::Rejected(reason)) => Ok(Some(reason)),
        Some(other) => Err(
            KernelFault::Start("kernel answered a restore with "@ + status_shown(other)),
        ),
        None => Err(KernelFault::Start("kernel died while accepting a snapshot"@)),
    }
}

/// Says what a restore produced, by the kernel's answer. What the checkpoint declared lost comes
/// back with the session.
pub fn settle_restore(
    session: &KernelSessionId,
    generation: KernelGeneration,
    checkpoint: &KernelCheckpointRef,
    status: &Option<FrameStatus>,
) -> (r: Result<KernelRestore, KernelError>)
    ensures
        match restore_answer(
            match *status {
                Some(s) => Some(s@),
                None => None,
            },
        ) {
            Err(e) => kernel_fault(r) == Some(e),
            Ok(Some(reason)) => r is Ok && (r->Ok_0 matches KernelRestore::Rejected { reason: said }
                && said@ == reason),
            Ok(None) => r is Ok && (r->Ok_0 matches KernelRestore::Restored {
                session: of,
                generation: number,
                lost,
            } && of@ == session@ && number == generation && loss_views(lost@)
                == checkpoint@.non_restorable),
        },
{
    match status {
        Some(FrameStatus::Done) => Ok(
            KernelRestore::Restored {
                session: session.duplicate(),
                generation,
                lost: copy_losses(&checkpoint.non_restorable),
            },
        ),
        Some(FrameStatus::Rejected(reason)) => Ok(
            KernelRestore::Rejected { reason: reason.duplicate() },
        ),
        Some(other) => {
            let shown = show_status(other);
            Err(KernelError::Start(two("kernel answered a restore with ", shown.as_str())))
        },
        None => Err(KernelError::Start("kernel died while accepting a snapshot".to_owned())),
    }
}

/// What a reconciliation does.
#[derive(Debug, PartialEq, Eq)]
pub enum ReconcileStep {
    /// The session settled before: give what it has.
    Replay,
    /// The process is alive: settle nothing.
    StillLive,
    /// Nothing is known: leave everything.
    Uncertain,
    /// The process is gone: settle the session and its executions as interrupted.
    Interrupt,
}

/// What evidence of a process makes of its session.
pub open spec fn reconcile_step(settled: bool, liveness: Liveness) -> ReconcileStep {
    if settled {
        ReconcileStep::Replay
    } else {
        match liveness {
            Liveness::Live => ReconcileStep::StillLive,
            Liveness::Unknown => ReconcileStep::Uncertain,
            Liveness::Gone => ReconcileStep::Interrupt,
        }
    }
}

/// Decides what evidence of a process makes of its session.
pub fn decide_reconcile(settled: bool, liveness: Liveness) -> (r: ReconcileStep)
    ensures
        r == reconcile_step(settled, liveness),
{
    if settled {
        return ReconcileStep::Replay;
    }
    match liveness {
        Liveness::Live => ReconcileStep::StillLive,
        Liveness::Unknown => ReconcileStep::Uncertain,
        Liveness::Gone => ReconcileStep::Interrupt,
    }
}

/// The identity under which captured output is stored: the readable one where it fits, else its
/// digest.
pub open spec fn sink_name(key: KeyView) -> Seq<char> {
    let readable = key.session + "."@ + decimal(key.generation as nat) + "."@ + key.execution;
    if crate::program::execution_id_fault(readable) is None {
        readable
    } else {
        "kernel."@ + sha256_hex(encode_utf8(readable))
    }
}

/// The identity under which the output of an execution is stored.
pub fn sink_identity(key: &KernelExecutionKey) -> (r: Result<ExecutionId, KernelError>)
    ensures
        match crate::program::execution_id_fault(sink_name(key@)) {
            None => r is Ok && r->Ok_0@ == sink_name(key@),
            Some(m) => kernel_fault(r) == Some(
                KernelFault::Validation(ProgramFault::Validation(m).words()),
            ),
        },
{
    let mut readable = two(key.session().as_str(), ".");
    push_decimal(&mut readable, key.generation().get());
    readable.append(".");
    readable.append(key.execution().as_str());
    if let Ok(id) = ExecutionId::new(readable.as_str()) {
        return Ok(id);
    }
    let bytes = bytes_of(readable.as_str());
    let digest = ArtifactDigest::of(bytes.as_slice());
    let name = two("kernel.", digest.as_str());
    match ExecutionId::new(name.as_str()) {
        Ok(id) => Ok(id),
        Err(error) => Err(KernelError::Validation(error.describe())),
    }
}

/// The identity under which the payload of a checkpoint is stored: the readable one where it fits,
/// else one made of the session's digest.
pub open spec fn checkpoint_sink_name(session: Seq<char>, generation: u64) -> Seq<char> {
    let readable = session + "."@ + decimal(generation as nat) + ".checkpoint"@;
    if crate::program::execution_id_fault(readable) is None {
        readable
    } else {
        "kernel."@ + sha256_hex(encode_utf8(session)) + ".checkpoint"@
    }
}

/// The identity under which the payload of a checkpoint is stored.
pub fn checkpoint_identity(session: &KernelSessionId, generation: KernelGeneration) -> (r: Result<
    ExecutionId,
    KernelError,
>)
    ensures
        match crate::program::execution_id_fault(checkpoint_sink_name(session@, generation.0)) {
            None => r is Ok && r->Ok_0@ == checkpoint_sink_name(session@, generation.0),
            Some(m) => kernel_fault(r) == Some(
                KernelFault::Validation(ProgramFault::Validation(m).words()),
            ),
        },
{
    let mut readable = two(session.as_str(), ".");
    push_decimal(&mut readable, generation.get());
    readable.append(".checkpoint");
    if let Ok(id) = ExecutionId::new(readable.as_str()) {
        return Ok(id);
    }
    let bytes = bytes_of(session.as_str());
    let digest = ArtifactDigest::of(bytes.as_slice());
    let name = three("kernel.", digest.as_str(), ".checkpoint");
    match ExecutionId::new(name.as_str()) {
        Ok(id) => Ok(id),
        Err(error) => Err(KernelError::Validation(error.describe())),
    }
}

/// What each session is called.
pub open spec fn session_names(sessions: Seq<KernelSessionId>) -> Seq<Seq<char>> {
    Seq::new(sessions.len(), |i: int| sessions[i]@)
}

/// The sessions that are recorded as live and not held here, in the order in which they are
/// recorded.
#[verifier::loop_isolation(false)]
pub fn requiring_reconciliation(
    recorded: &Vec<KernelSessionId>,
    held: &Vec<KernelSessionId>,
) -> (r: Vec<KernelSessionId>)
    ensures
        session_names(r@) == session_names(recorded@).filter(
            |s: Seq<char>| !session_names(held@).contains(s),
        ),
{
    let ghost all = session_names(recorded@);
    let ghost mine = session_names(held@);
    let ghost keep = |s: Seq<char>| !mine.contains(s);
    let mut out: Vec<KernelSessionId> = Vec::new();
    let mut i: usize = 0;
    proof {
        assert(all.take(0) =~= Seq::empty());
        reveal(Seq::filter);
        assert(session_names(out@) =~= Seq::empty());
    }
    while i < recorded.len()
        invariant
            i <= recorded@.len(),
            session_names(out@) == all.take(i as int).filter(keep),
        decreases recorded@.len() - i,
    {
        let mut found = false;
        let mut k: usize = 0;
        while k < held.len()
            invariant
                k <= held@.len(),
                found == exists|j: int| 0 <= j < k && mine[j] == all[i as int],
            decreases held@.len() - k,
        {
            assert(mine[k as int] == held@[k as int]@);
            if held[k].same(&recorded[i]) {
                found = true;
            }
            k += 1;
        }
        let ghost before = session_names(out@);
        proof {
            assert(found == mine.contains(all[i as int]));
            assert(all.take(i + 1).drop_last() =~= all.take(i as int));
            assert(all.take(i + 1).last() == all[i as int]);
            reveal(Seq::filter);
        }
        if !found {
            out.push(recorded[i].duplicate());
            proof {
                assert(session_names(out@) =~= before.push(all[i as int]));
            }
        }
        i += 1;
    }
    proof {
        assert(all.take(all.len() as int) =~= all);
    }
    out
}

/// A number as the store keeps it.
pub fn as_i64(value: u64) -> (r: Result<i64, KernelError>)
    ensures
        if value <= i64::MAX {
            r is Ok && r->Ok_0 == value
        } else {
            kernel_fault(r) == Some(KernelFault::Validation("value exceeds the storable range"@))
        },
{
    if value > i64::MAX as u64 {
        return Err(validation("value exceeds the storable range"));
    }
    Ok(value as i64)
}

/// A row of an incarnation that is accepted has a number, no count below zero and a process number
/// within the system's range, and is settled exactly where it has a receipt, which is of this
/// session and number. What is read of it is what stands in its columns.
pub proof fn law_incarnation_rows_tell_what_was_stored(session: Seq<char>, row: IncarnationRow)
    requires
        incarnation_fault(session, row) is None,
    ensures
        ({
            let stored = incarnation_view(row);
            &&& row.generation > 0
            &&& stored.generation == row.generation
            &&& stored.owner == row.owner@
            &&& stored.pid == row.pid
            &&& stored.opened_at_ms == row.opened_at_ms
            &&& stored.executions == row.executions
            &&& stored.captured_bytes == row.captured_bytes
            &&& row.spec is Ok
            &&& stored.spec == row.spec->Ok_0@
            &&& stored.receipt is Some <==> row.state@ == "settled"@
            &&& stored.receipt is None <==> row.state@ == "live"@
            &&& stored.receipt matches Some(receipt) ==> receipt.session == session
                && receipt.generation == row.generation
        }),
{
    reveal_strlit("live");
    reveal_strlit("settled");
    assert("live"@.len() == 4 && "settled"@.len() == 7);
}

/// A row of an execution that is accepted has a sound key, and is settled exactly where it has a
/// receipt, which is of this key. What is read of it is what stands in its columns.
pub proof fn law_execution_rows_tell_what_was_stored(row: KernelExecutionRow)
    requires
        execution_row_fault(row) is None,
    ensures
        ({
            let stored = execution_row_view(row);
            &&& stored.key.session == row.session_id@
            &&& stored.key.generation == row.generation
            &&& stored.key.execution == row.execution_id@
            &&& key_fault(stored.key) is None
            &&& stored.sequence == row.sequence
            &&& stored.owner == row.owner@
            &&& stored.started_at_ms == row.started_at_ms
            &&& row.submission is Ok
            &&& stored.record == row.submission->Ok_0@
            &&& stored.receipt is Some <==> row.state@ == "settled"@
            &&& stored.receipt is None <==> row.state@ == "in_flight"@
            &&& stored.receipt matches Some(receipt) ==> receipt.key == stored.key
        }),
{
    reveal_strlit("in_flight");
    reveal_strlit("settled");
    assert("in_flight"@.len() == 9 && "settled"@.len() == 7);
}

} // verus!
