//! Custody of artifacts: what each operation of a vault answers and leaves behind, and a shelf
//! that keeps artifacts in memory.

use crate::artifact::provenance::{
    write_fault, ArtifactMediaType, ArtifactProvenance, ArtifactRetention, ArtifactWrite,
    ProvenanceView, WriteView,
};
use crate::artifact::{
    corrupt, identity_of, validation, ArtifactDigest, ArtifactError, ArtifactFault, ArtifactHandle,
    ArtifactId, ArtifactIntegrity,
};
use crate::digest::{push_bytes, sha256_hex};
use crate::text_map::TextMap;
use vstd::prelude::*;

verus! {

/// Durable record of how an artifact has been used. Counters stop at their bound instead of
/// beginning again.
#[derive(Clone, Copy, Debug, PartialEq, Eq, Structural)]
pub struct ArtifactUsage {
    /// Verified reads of the content.
    pub reads: u64,
    /// Verified copies to a path.
    pub materializations: u64,
    /// Verified bytes served, over reads and copies.
    pub bytes_served: u64,
    /// The instant of the last read or copy.
    pub last_used_at_ms: Option<u64>,
}

impl Default for ArtifactUsage {
    fn default() -> (r: ArtifactUsage)
        ensures
            r == no_usage(),
    {
        ArtifactUsage { reads: 0, materializations: 0, bytes_served: 0, last_used_at_ms: None }
    }
}

/// The usage of an artifact that was never used.
pub open spec fn no_usage() -> ArtifactUsage {
    ArtifactUsage { reads: 0, materializations: 0, bytes_served: 0, last_used_at_ms: None }
}

/// A sum that stops at the bound of its type.
pub open spec fn saturated_sum(a: u64, b: u64) -> u64 {
    if a + b > u64::MAX {
        u64::MAX
    } else {
        (a + b) as u64
    }
}

/// The usage after one more read.
pub open spec fn after_read(usage: ArtifactUsage, size: u64, now_ms: u64) -> ArtifactUsage {
    ArtifactUsage {
        reads: saturated_sum(usage.reads, 1),
        bytes_served: saturated_sum(usage.bytes_served, size),
        last_used_at_ms: Some(now_ms),
        ..usage
    }
}

/// The usage after one more copy.
pub open spec fn after_materialization(usage: ArtifactUsage, size: u64, now_ms: u64) -> ArtifactUsage {
    ArtifactUsage {
        materializations: saturated_sum(usage.materializations, 1),
        bytes_served: saturated_sum(usage.bytes_served, size),
        last_used_at_ms: Some(now_ms),
        ..usage
    }
}

impl ArtifactUsage {
    /// Counts one read.
    pub fn record_read(&mut self, size: u64, now_ms: u64)
        ensures
            *final(self) == after_read(*old(self), size, now_ms),
    {
        self.reads = self.reads.saturating_add(1);
        self.bytes_served = self.bytes_served.saturating_add(size);
        self.last_used_at_ms = Some(now_ms);
    }

    /// Counts one copy.
    pub fn record_materialization(&mut self, size: u64, now_ms: u64)
        ensures
            *final(self) == after_materialization(*old(self), size, now_ms),
    {
        self.materializations = self.materializations.saturating_add(1);
        self.bytes_served = self.bytes_served.saturating_add(size);
        self.last_used_at_ms = Some(now_ms);
    }
}

/// Everything that a vault durably knows about one artifact.
#[derive(Debug, PartialEq, Eq)]
pub struct ArtifactRecord {
    pub handle: ArtifactHandle,
    pub size: u64,
    pub media_type: ArtifactMediaType,
    pub retention: ArtifactRetention,
    pub retain_until_ms: Option<u64>,
    pub provenance: ArtifactProvenance,
    pub written_at_ms: u64,
    /// The instant of the last recovery, when the stored copy was ever replaced after damage.
    pub recovered_at_ms: Option<u64>,
    pub usage: ArtifactUsage,
}

/// What an [`ArtifactRecord`] says.
pub struct RecordView {
    pub digest: Seq<char>,
    pub size: u64,
    pub media_type: Seq<char>,
    pub retention: ArtifactRetention,
    pub retain_until_ms: Option<u64>,
    pub provenance: ProvenanceView,
    pub written_at_ms: u64,
    pub recovered_at_ms: Option<u64>,
    pub usage: ArtifactUsage,
}

impl View for ArtifactRecord {
    type V = RecordView;

    open spec fn view(&self) -> RecordView {
        RecordView {
            digest: self.handle@,
            size: self.size,
            media_type: self.media_type@,
            retention: self.retention,
            retain_until_ms: self.retain_until_ms,
            provenance: self.provenance@,
            written_at_ms: self.written_at_ms,
            recovered_at_ms: self.recovered_at_ms,
            usage: self.usage,
        }
    }
}

impl ArtifactRecord {
    /// A second copy of the record.
    pub fn duplicate(&self) -> (r: ArtifactRecord)
        ensures
            r@ == self@,
    {
        ArtifactRecord {
            handle: self.handle.duplicate(),
            size: self.size,
            media_type: self.media_type.duplicate(),
            retention: self.retention,
            retain_until_ms: self.retain_until_ms,
            provenance: self.provenance.duplicate(),
            written_at_ms: self.written_at_ms,
            recovered_at_ms: self.recovered_at_ms,
            usage: self.usage,
        }
    }
}

/// What a write did.
#[derive(Clone, Copy, Debug, PartialEq, Eq, Structural)]
pub enum ArtifactPut {
    /// The content was not present and is now stored.
    Stored,
    /// The content was already stored, and its record is untouched.
    AlreadyPresent,
}

/// The handle that a write settled on, and what the write did.
#[derive(Debug, PartialEq, Eq)]
pub struct ArtifactReceipt {
    pub handle: ArtifactHandle,
    pub outcome: ArtifactPut,
}

/// What a recovery did.
#[derive(Clone, Copy, Debug, PartialEq, Eq, Structural)]
pub enum ArtifactRecovery {
    /// The stored copy was intact, and nothing was replaced.
    AlreadyIntact,
    /// Damaged content was replaced; the record is unchanged but for the instant of recovery.
    Restored,
}

/// A verified copy of one artifact at a path outside the vault.
#[derive(Debug, PartialEq, Eq)]
pub struct ArtifactMaterialization {
    pub path: String,
    pub size: u64,
    pub digest: ArtifactDigest,
}

/// One stored artifact: the bytes that are there now, and its record.
pub struct StoredView {
    pub content: Seq<u8>,
    pub record: RecordView,
}

/// The artifacts of a vault by identity.
pub type Shelf = Map<Seq<char>, StoredView>;

/// The record of content that is stored for the first time.
pub open spec fn fresh_record(write: WriteView, content: Seq<u8>, now_ms: u64) -> RecordView {
    RecordView {
        digest: sha256_hex(content),
        size: content.len() as u64,
        media_type: write.media_type,
        retention: write.retention,
        retain_until_ms: write.retain_until_ms,
        provenance: write.provenance,
        written_at_ms: now_ms,
        recovered_at_ms: None,
        usage: no_usage(),
    }
}

/// What a write answers, and the shelf after it.
pub open spec fn put_on(shelf: Shelf, content: Seq<u8>, write: WriteView, now_ms: u64) -> (
    Result<(Seq<char>, ArtifactPut), ArtifactFault>,
    Shelf,
) {
    let digest = sha256_hex(content);
    let id = identity_of(digest);
    match write_fault(write, content) {
        Some(e) => (Err(e), shelf),
        None => if shelf.dom().contains(id) {
            (Ok((digest, ArtifactPut::AlreadyPresent)), shelf)
        } else {
            (
                Ok((digest, ArtifactPut::Stored)),
                shelf.insert(
                    id,
                    StoredView { content, record: fresh_record(write, content, now_ms) },
                ),
            )
        },
    }
}

/// What a read answers, and the shelf after it. Content that is damaged and content that is not
/// there are two different answers.
pub open spec fn read_on(shelf: Shelf, digest: Seq<char>, now_ms: u64) -> (
    Result<Seq<u8>, ArtifactFault>,
    Shelf,
) {
    let id = identity_of(digest);
    if !shelf.dom().contains(id) {
        (Err(ArtifactFault::Missing(id)), shelf)
    } else if sha256_hex(shelf[id].content) != digest {
        (
            Err(
                ArtifactFault::Corrupt(
                    "stored bytes no longer address to the artifact that names them"@,
                ),
            ),
            shelf,
        )
    } else {
        let stored = shelf[id];
        (
            Ok(stored.content),
            shelf.insert(
                id,
                StoredView {
                    record: RecordView {
                        usage: after_read(stored.record.usage, stored.content.len() as u64, now_ms),
                        ..stored.record
                    },
                    ..stored
                },
            ),
        )
    }
}

/// What a probe of a stored copy answers.
pub open spec fn verify_on(shelf: Shelf, id: Seq<char>) -> ArtifactIntegrity {
    if !shelf.dom().contains(id) {
        ArtifactIntegrity::Missing
    } else if identity_of(sha256_hex(shelf[id].content)) == id {
        ArtifactIntegrity::Intact
    } else {
        ArtifactIntegrity::Corrupt
    }
}

/// What a recovery answers, and the shelf after it.
pub open spec fn recover_on(shelf: Shelf, id: Seq<char>, content: Seq<u8>, now_ms: u64) -> (
    Result<ArtifactRecovery, ArtifactFault>,
    Shelf,
) {
    if identity_of(sha256_hex(content)) != id {
        (
            Err(
                ArtifactFault::Validation(
                    "content offered for recovery does not address to the artifact"@,
                ),
            ),
            shelf,
        )
    } else if !shelf.dom().contains(id) {
        (Err(ArtifactFault::Missing(id)), shelf)
    } else if verify_on(shelf, id) == ArtifactIntegrity::Intact {
        (Ok(ArtifactRecovery::AlreadyIntact), shelf)
    } else {
        (
            Ok(ArtifactRecovery::Restored),
            shelf.insert(
                id,
                StoredView {
                    content,
                    record: RecordView { recovered_at_ms: Some(now_ms), ..shelf[id].record },
                },
            ),
        )
    }
}

/// A receipt as the shelf states it.
pub open spec fn put_answer(r: Result<ArtifactReceipt, ArtifactError>) -> Result<
    (Seq<char>, ArtifactPut),
    ArtifactFault,
> {
    match r {
        Ok(receipt) => Ok((receipt.handle@, receipt.outcome)),
        Err(e) => Err(e@),
    }
}

/// Content as the shelf states it.
pub open spec fn read_answer(r: Result<Vec<u8>, ArtifactError>) -> Result<Seq<u8>, ArtifactFault> {
    match r {
        Ok(content) => Ok(content@),
        Err(e) => Err(e@),
    }
}

/// A recovery as the shelf states it.
pub open spec fn recover_answer(r: Result<ArtifactRecovery, ArtifactError>) -> Result<
    ArtifactRecovery,
    ArtifactFault,
> {
    match r {
        Ok(recovery) => Ok(recovery),
        Err(e) => Err(e@),
    }
}

/// Durable custody of content-addressed artifacts. An implementation that keeps the contract says
/// so by `lawful`; every instant comes from the caller.
pub trait ArtifactVault: Sized {
    /// Whether the implementation keeps the contract. One that does not say is not taken to.
    open spec fn lawful(&self) -> bool {
        false
    }

    /// The artifacts that it keeps.
    open spec fn shelf(&self) -> Shelf {
        Map::empty()
    }

    /// Stores content under its derived identity.
    fn put(&mut self, content: &[u8], write: &ArtifactWrite, now_ms: u64) -> (r: Result<
        ArtifactReceipt,
        ArtifactError,
    >)
        ensures
            old(self).lawful() ==> final(self).lawful() && (put_answer(r), final(self).shelf())
                == put_on(old(self).shelf(), content@, write@, now_ms),
    ;

    /// Answers what is durably known about one artifact.
    fn inspect(&self, id: &ArtifactId) -> (r: Result<Option<ArtifactRecord>, ArtifactError>)
        ensures
            self.lawful() ==> r is Ok && match r->Ok_0 {
                Some(record) => self.shelf().dom().contains(id@) && record@
                    == self.shelf()[id@].record,
                None => !self.shelf().dom().contains(id@),
            },
    ;

    /// Reads the content that a handle names, verified, and counts one read.
    fn read(&mut self, handle: &ArtifactHandle, now_ms: u64) -> (r: Result<Vec<u8>, ArtifactError>)
        ensures
            old(self).lawful() ==> final(self).lawful() && (read_answer(r), final(self).shelf())
                == read_on(old(self).shelf(), handle@, now_ms),
    ;

    /// Probes a stored copy without reading it and without counting.
    fn verify(&self, id: &ArtifactId) -> (r: Result<ArtifactIntegrity, ArtifactError>)
        ensures
            self.lawful() ==> r is Ok && r->Ok_0 == verify_on(self.shelf(), id@),
    ;

    /// Replaces a damaged stored copy with bytes that the host supplies.
    fn recover(&mut self, id: &ArtifactId, content: &[u8], now_ms: u64) -> (r: Result<
        ArtifactRecovery,
        ArtifactError,
    >)
        ensures
            old(self).lawful() ==> final(self).lawful() && (recover_answer(r), final(self).shelf())
                == recover_on(old(self).shelf(), id@, content@, now_ms),
    ;

    /// How one artifact has been used.
    fn usage(&self, id: &ArtifactId) -> (r: Result<Option<ArtifactUsage>, ArtifactError>)
        ensures
            self.lawful() ==> r is Ok && r->Ok_0 == (if self.shelf().dom().contains(id@) {
                Some(self.shelf()[id@].record.usage)
            } else {
                None
            }),
    ;
}

/// One artifact on a shelf.
struct StoredArtifact {
    content: Vec<u8>,
    record: ArtifactRecord,
}

impl View for StoredArtifact {
    type V = StoredView;

    closed spec fn view(&self) -> StoredView {
        StoredView { content: self.content@, record: self.record@ }
    }
}

/// A vault that keeps its artifacts in memory.
pub struct ArtifactShelf {
    artifacts: TextMap<StoredArtifact>,
}

fn copy_bytes(bytes: &[u8]) -> (r: Vec<u8>)
    ensures
        r@ == bytes@,
{
    let mut out: Vec<u8> = Vec::new();
    push_bytes(&mut out, bytes);
    proof {
        assert(out@ =~= bytes@);
    }
    out
}

impl ArtifactShelf {
    /// An empty shelf.
    pub fn new() -> (r: ArtifactShelf)
        ensures
            r.shelf() == Shelf::empty(),
            r.lawful(),
    {
        let r = ArtifactShelf { artifacts: TextMap::new() };
        proof {
            assert(r.shelf() =~= Shelf::empty());
        }
        r
    }

    /// Overwrites a stored copy, as damage does. The record is untouched.
    pub fn damage(&mut self, id: &ArtifactId, content: &[u8])
        ensures
            final(self).shelf() == if old(self).shelf().dom().contains(id@) {
                old(self).shelf().insert(
                    id@,
                    StoredView { content: content@, ..old(self).shelf()[id@] },
                )
            } else {
                old(self).shelf()
            },
    {
        let record = match self.artifacts.get(id.as_str()) {
            Some(stored) => stored.record.duplicate(),
            None => {
                return ;
            },
        };
        let ghost before = self.shelf();
        let stored = StoredArtifact { content: copy_bytes(content), record };
        let ghost after = stored@;
        self.artifacts.insert(id.as_str(), stored);
        proof {
            assert(self.shelf() =~= before.insert(id@, after));
        }
    }
}

impl ArtifactVault for ArtifactShelf {
    open spec fn lawful(&self) -> bool {
        true
    }

    closed spec fn shelf(&self) -> Shelf {
        self.artifacts@.map_values(|stored: StoredArtifact| stored@)
    }

    fn put(&mut self, content: &[u8], write: &ArtifactWrite, now_ms: u64) -> (r: Result<
        ArtifactReceipt,
        ArtifactError,
    >) {
        let handle = write.validate_for(content)?;
        let id = handle.id().duplicate();
        if self.artifacts.contains_key(id.as_str()) {
            return Ok(ArtifactReceipt { handle, outcome: ArtifactPut::AlreadyPresent });
        }
        let ghost before = self.shelf();
        let stored = StoredArtifact {
            content: copy_bytes(content),
            record: ArtifactRecord {
                handle: handle.duplicate(),
                size: content.len() as u64,
                media_type: write.media_type().duplicate(),
                retention: write.retention(),
                retain_until_ms: write.retain_until_ms(),
                provenance: write.provenance().duplicate(),
                written_at_ms: now_ms,
                recovered_at_ms: None,
                usage: ArtifactUsage::default(),
            },
        };
        let ghost after = stored@;
        self.artifacts.insert(id.as_str(), stored);
        proof {
            assert(self.shelf() =~= before.insert(id@, after));
        }
        Ok(ArtifactReceipt { handle, outcome: ArtifactPut::Stored })
    }

    fn inspect(&self, id: &ArtifactId) -> (r: Result<Option<ArtifactRecord>, ArtifactError>) {
        match self.artifacts.get(id.as_str()) {
            Some(stored) => Ok(Some(stored.record.duplicate())),
            None => Ok(None),
        }
    }

    fn read(&mut self, handle: &ArtifactHandle, now_ms: u64) -> (r: Result<
        Vec<u8>,
        ArtifactError,
    >) {
        let id = handle.id();
        let (content, mut record) = match self.artifacts.get(id.as_str()) {
            Some(stored) => (copy_bytes(stored.content.as_slice()), stored.record.duplicate()),
            None => {
                return Err(ArtifactError::Missing(id.as_str().to_owned()));
            },
        };
        if !handle.addresses(content.as_slice()) {
            return Err(corrupt("stored bytes no longer address to the artifact that names them"));
        }
        let ghost before = self.shelf();
        let mut usage = record.usage;
        usage.record_read(content.len() as u64, now_ms);
        record.usage = usage;
        let stored = StoredArtifact { content: copy_bytes(content.as_slice()), record };
        let ghost after = stored@;
        self.artifacts.insert(id.as_str(), stored);
        proof {
            assert(self.shelf() =~= before.insert(id@, after));
        }
        Ok(content)
    }

    fn verify(&self, id: &ArtifactId) -> (r: Result<ArtifactIntegrity, ArtifactError>) {
        match self.artifacts.get(id.as_str()) {
            None => Ok(ArtifactIntegrity::Missing),
            Some(stored) => if ArtifactId::for_content(stored.content.as_slice()).same(id) {
                Ok(ArtifactIntegrity::Intact)
            } else {
                Ok(ArtifactIntegrity::Corrupt)
            },
        }
    }

    fn recover(&mut self, id: &ArtifactId, content: &[u8], now_ms: u64) -> (r: Result<
        ArtifactRecovery,
        ArtifactError,
    >) {
        if !ArtifactId::for_content(content).same(id) {
            return Err(
                validation("content offered for recovery does not address to the artifact"),
            );
        }
        let mut record = match self.artifacts.get(id.as_str()) {
            None => {
                return Err(ArtifactError::Missing(id.as_str().to_owned()));
            },
            Some(stored) => {
                if ArtifactId::for_content(stored.content.as_slice()).same(id) {
                    return Ok(ArtifactRecovery::AlreadyIntact);
                }
                stored.record.duplicate()
            },
        };
        record.recovered_at_ms = Some(now_ms);
        let ghost before = self.shelf();
        let stored = StoredArtifact { content: copy_bytes(content), record };
        let ghost after = stored@;
        self.artifacts.insert(id.as_str(), stored);
        proof {
            assert(self.shelf() =~= before.insert(id@, after));
        }
        Ok(ArtifactRecovery::Restored)
    }

    fn usage(&self, id: &ArtifactId) -> (r: Result<Option<ArtifactUsage>, ArtifactError>) {
        match self.artifacts.get(id.as_str()) {
            Some(stored) => Ok(Some(stored.record.usage)),
            None => Ok(None),
        }
    }
}

/// A read gives back exactly the bytes that a write stored.
pub proof fn law_reads_return_what_was_written(
    shelf: Shelf,
    content: Seq<u8>,
    write: WriteView,
    written_at: u64,
    read_at: u64,
)
    requires
        put_on(shelf, content, write, written_at).0 == Ok::<
            (Seq<char>, ArtifactPut),
            ArtifactFault,
        >((sha256_hex(content), ArtifactPut::Stored)),
    ensures
        read_on(
            put_on(shelf, content, write, written_at).1,
            sha256_hex(content),
            read_at,
        ).0 == Ok::<Seq<u8>, ArtifactFault>(content),
{
}

/// Writing the same bytes again changes nothing: the artifact is neither dated, labelled nor
/// attributed anew.
pub proof fn law_second_writes_change_nothing(
    shelf: Shelf,
    content: Seq<u8>,
    first: WriteView,
    first_at: u64,
    second: WriteView,
    second_at: u64,
)
    requires
        write_fault(first, content) is None,
        write_fault(second, content) is None,
    ensures
        ({
            let once = put_on(shelf, content, first, first_at).1;
            let twice = put_on(once, content, second, second_at);
            &&& twice.1 == once
            &&& twice.0 == Ok::<(Seq<char>, ArtifactPut), ArtifactFault>(
                (sha256_hex(content), ArtifactPut::AlreadyPresent),
            )
        }),
{
}

/// What a read answers always addresses to the digest that was asked for.
pub proof fn law_reads_are_verified(shelf: Shelf, digest: Seq<char>, now_ms: u64)
    ensures
        read_on(shelf, digest, now_ms).0 matches Ok(content) ==> sha256_hex(content) == digest,
        read_on(shelf, digest, now_ms).0 is Err ==> read_on(shelf, digest, now_ms).1 == shelf,
{
}

/// A recovery makes the artifact readable again and keeps its record, but for the instant at
/// which it was recovered.
pub proof fn law_recovery_keeps_the_record(
    shelf: Shelf,
    digest: Seq<char>,
    content: Seq<u8>,
    now_ms: u64,
    read_at: u64,
)
    requires
        sha256_hex(content) == digest,
        shelf.dom().contains(identity_of(digest)),
        verify_on(shelf, identity_of(digest)) == ArtifactIntegrity::Corrupt,
    ensures
        ({
            let id = identity_of(digest);
            let (answer, after) = recover_on(shelf, id, content, now_ms);
            &&& answer == Ok::<ArtifactRecovery, ArtifactFault>(ArtifactRecovery::Restored)
            &&& after[id].record == (RecordView {
                recovered_at_ms: Some(now_ms),
                ..shelf[id].record
            })
            &&& verify_on(after, id) == ArtifactIntegrity::Intact
            &&& read_on(after, digest, read_at).0 == Ok::<Seq<u8>, ArtifactFault>(content)
        }),
{
}

/// A write that is in order stores the content exactly where it is not present yet, under the
/// identity of its bytes, with what the write declares, dated now and never used; every other
/// artifact stays as it is. A refused write changes nothing.
pub proof fn law_writes_store_what_they_declare(
    shelf: Shelf,
    content: Seq<u8>,
    write: WriteView,
    now_ms: u64,
)
    requires
        content.len() <= u64::MAX,
    ensures
        ({
            let id = identity_of(sha256_hex(content));
            let (answer, after) = put_on(shelf, content, write, now_ms);
            &&& answer is Ok <==> write_fault(write, content) is None
            &&& answer matches Ok((digest, _)) ==> digest == sha256_hex(content)
            &&& (answer matches Ok((_, ArtifactPut::Stored))) <==> answer is Ok
                && !shelf.dom().contains(id)
            &&& answer matches Ok((_, ArtifactPut::Stored)) ==> {
                let record = after[id].record;
                &&& after.dom() == shelf.dom().insert(id)
                &&& after[id].content == content
                &&& record.digest == sha256_hex(content)
                &&& record.size == content.len()
                &&& record.media_type == write.media_type
                &&& record.retention == write.retention
                &&& record.retain_until_ms == write.retain_until_ms
                &&& record.provenance == write.provenance
                &&& record.written_at_ms == now_ms
                &&& record.recovered_at_ms is None
                &&& record.usage.reads == 0
                &&& record.usage.materializations == 0
                &&& record.usage.bytes_served == 0
                &&& record.usage.last_used_at_ms is None
                &&& forall|other: Seq<char>| other != id ==> #[trigger] after[other] == shelf[other]
            }
            &&& !(answer matches Ok((_, ArtifactPut::Stored))) ==> after == shelf
        }),
{
}

/// A read succeeds exactly where the artifact is present and its bytes still address to it. It is
/// counted, with its bytes and its time, and changes nothing else of this artifact or any other.
pub proof fn law_reads_change_the_usage_alone(shelf: Shelf, digest: Seq<char>, now_ms: u64)
    ensures
        ({
            let id = identity_of(digest);
            let (answer, after) = read_on(shelf, digest, now_ms);
            let was = shelf[id];
            let is = after[id];
            &&& answer is Ok <==> shelf.dom().contains(id) && sha256_hex(was.content) == digest
            &&& (answer matches Err(ArtifactFault::Missing(_))) <==> !shelf.dom().contains(id)
            &&& answer matches Ok(content) ==> {
                &&& content == was.content
                &&& after.dom() == shelf.dom()
                &&& is.content == was.content
                &&& is.record.digest == was.record.digest
                &&& is.record.size == was.record.size
                &&& is.record.media_type == was.record.media_type
                &&& is.record.retention == was.record.retention
                &&& is.record.retain_until_ms == was.record.retain_until_ms
                &&& is.record.provenance == was.record.provenance
                &&& is.record.written_at_ms == was.record.written_at_ms
                &&& is.record.recovered_at_ms == was.record.recovered_at_ms
                &&& is.record.usage.materializations == was.record.usage.materializations
                &&& is.record.usage.last_used_at_ms == Some(now_ms)
                &&& was.record.usage.reads < u64::MAX ==> is.record.usage.reads
                    == was.record.usage.reads + 1
                &&& was.record.usage.bytes_served + content.len() <= u64::MAX
                    ==> is.record.usage.bytes_served == was.record.usage.bytes_served
                    + content.len()
                &&& forall|other: Seq<char>| other != id ==> #[trigger] after[other] == shelf[other]
            }
            &&& answer is Err ==> after == shelf
        }),
{
    let id = identity_of(digest);
    if shelf.dom().contains(id) {
        assert(shelf.insert(id, read_on(shelf, digest, now_ms).1[id]).dom() =~= shelf.dom());
    }
}

/// A copy is counted as a copy and not as a read, with its bytes and its time.
pub proof fn law_copies_are_counted(usage: ArtifactUsage, size: u64, now_ms: u64)
    ensures
        ({
            let after = after_materialization(usage, size, now_ms);
            &&& after.reads == usage.reads
            &&& usage.materializations < u64::MAX ==> after.materializations
                == usage.materializations + 1
            &&& usage.bytes_served + size <= u64::MAX ==> after.bytes_served == usage.bytes_served
                + size
            &&& after.last_used_at_ms == Some(now_ms)
        }),
{
}

/// A recovery takes only the bytes that address to the artifact, and only for an artifact that is
/// known. An intact copy is left as it is; a damaged one is replaced, in this artifact alone.
pub proof fn law_recoveries_replace_damage_alone(
    shelf: Shelf,
    id: Seq<char>,
    content: Seq<u8>,
    now_ms: u64,
)
    ensures
        ({
            let (answer, after) = recover_on(shelf, id, content, now_ms);
            let right = identity_of(sha256_hex(content)) == id;
            let there = shelf.dom().contains(id);
            let intact = identity_of(sha256_hex(shelf[id].content)) == id;
            &&& answer is Ok <==> right && there
            &&& (answer matches Ok(ArtifactRecovery::AlreadyIntact)) <==> right && there && intact
            &&& (answer matches Ok(ArtifactRecovery::Restored)) <==> right && there && !intact
            &&& answer matches Ok(ArtifactRecovery::Restored) ==> {
                &&& after.dom() == shelf.dom()
                &&& after[id].content == content
                &&& forall|other: Seq<char>| other != id ==> #[trigger] after[other] == shelf[other]
            }
            &&& !(answer matches Ok(ArtifactRecovery::Restored)) ==> after == shelf
            &&& (verify_on(shelf, id) is Missing) <==> !there
            &&& (verify_on(shelf, id) is Intact) <==> there && intact
        }),
{
    if shelf.dom().contains(id) {
        assert(shelf.insert(id, recover_on(shelf, id, content, now_ms).1[id]).dom()
            =~= shelf.dom());
    }
}

} // verus!
