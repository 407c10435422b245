//! The content-addressed, append-only store of harness snapshots.
//!
//! There is no operation that updates, replaces or removes a snapshot. A change of a harness is a
//! new snapshot under a new address.

use crate::harness::snapshot::{
    snapshot_bytes, snapshot_read, HarnessSnapshot, SnapshotView, MAX_HARNESS_SNAPSHOT_BYTES,
};
use crate::text::same_text;
use crate::session_state::ConformanceOpen;
use crate::text_map::TextMap;
use vstd::prelude::*;

verus! {

pub const HARNESS_STORE_SCHEMA_MARKER: &'static str = "sophon-sdk.harness-snapshot-store";

pub const HARNESS_STORE_SCHEMA_VERSION: u32 = 1;

/// Why a store refused something.
#[derive(Debug, PartialEq, Eq)]
pub enum HarnessStoreError {
    Validation(String),
    Corrupt(String),
    Storage(String),
}

/// What a [`HarnessStoreError`] says.
pub enum HarnessStoreFault {
    Validation(Seq<char>),
    Corrupt(Seq<char>),
    Storage(Seq<char>),
}

impl View for HarnessStoreError {
    type V = HarnessStoreFault;

    open spec fn view(&self) -> HarnessStoreFault {
        match self {
            HarnessStoreError::Validation(m) => HarnessStoreFault::Validation(m@),
            HarnessStoreError::Corrupt(m) => HarnessStoreFault::Corrupt(m@),
            HarnessStoreError::Storage(m) => HarnessStoreFault::Storage(m@),
        }
    }
}

impl HarnessStoreFault {
    /// The fault in words.
    pub open spec fn words(self) -> Seq<char> {
        match self {
            HarnessStoreFault::Validation(m) => "harness snapshot validation failed: "@ + m,
            HarnessStoreFault::Corrupt(m) => "stored harness snapshot is corrupt: "@ + m,
            HarnessStoreFault::Storage(m) => "harness snapshot storage failed: "@ + m,
        }
    }
}

impl HarnessStoreError {
    /// The error in words.
    pub fn describe(&self) -> (r: String)
        ensures
            r@ == self@.words(),
    {
        match self {
            HarnessStoreError::Validation(m) => {
                let mut out = "harness snapshot validation failed: ".to_owned();
                out.append(m.as_str());
                out
            },
            HarnessStoreError::Corrupt(m) => {
                let mut out = "stored harness snapshot is corrupt: ".to_owned();
                out.append(m.as_str());
                out
            },
            HarnessStoreError::Storage(m) => {
                let mut out = "harness snapshot storage failed: ".to_owned();
                out.append(m.as_str());
                out
            },
        }
    }
}

/// The fault that a result carries.
pub open spec fn harness_fault<T>(r: Result<T, HarnessStoreError>) -> Option<HarnessStoreFault> {
    match r {
        Ok(_) => None,
        Err(e) => Some(e@),
    }
}

fn corrupt(message: &str) -> (r: HarnessStoreError)
    ensures
        r@ == HarnessStoreFault::Corrupt(message@),
{
    HarnessStoreError::Corrupt(message.to_owned())
}

/// What came of writing a snapshot under its own address.
#[derive(Clone, Copy, Debug, PartialEq, Eq, Structural)]
pub enum HarnessPut {
    Stored,
    AlreadyPresent,
    /// The write may have taken effect. The caller loads the address, and never takes this for a
    /// failure.
    CommitUnknown,
}

/// Whether a write is settled, by its answer and the snapshot that is read back.
pub open spec fn put_settled(
    result: HarnessPut,
    loaded: Option<SnapshotView>,
    intended: SnapshotView,
) -> bool {
    !(result is CommitUnknown) || loaded == Some(intended)
}

/// A write that was answered is settled, and one whose effect is not known is settled exactly where
/// the intended snapshot, and no other, is read back.
pub proof fn law_unknown_writes_settle_by_reading_back(
    result: HarnessPut,
    loaded: Option<SnapshotView>,
    intended: SnapshotView,
)
    ensures
        result is Stored || result is AlreadyPresent ==> put_settled(result, loaded, intended),
        result is CommitUnknown && loaded is None ==> !put_settled(result, loaded, intended),
        result is CommitUnknown && loaded is Some ==> (put_settled(result, loaded, intended)
            <==> loaded->Some_0 == intended),
{
}

/// Decides whether a write is settled. One whose effect is not known is settled only when exactly
/// the intended snapshot is read back.
pub fn harness_put_reconciled(
    result: &HarnessPut,
    loaded: &Option<HarnessSnapshot>,
    intended: &HarnessSnapshot,
) -> (r: bool)
    ensures
        r == put_settled(
            *result,
            match *loaded {
                Some(snapshot) => Some(snapshot@),
                None => None,
            },
            intended@,
        ),
{
    match result {
        HarnessPut::Stored | HarnessPut::AlreadyPresent => true,
        HarnessPut::CommitUnknown => match loaded {
            Some(snapshot) => snapshot.same(intended),
            None => false,
        },
    }
}

/// What is wrong with the declared size of a stored snapshot.
pub open spec fn declared_fault(size: i64, payload_size: i64) -> Option<HarnessStoreFault> {
    if size < 0 || size != payload_size || size > MAX_HARNESS_SNAPSHOT_BYTES {
        Some(
            HarnessStoreFault::Corrupt("stored harness snapshot has an invalid declared size"@),
        )
    } else {
        None
    }
}

/// Checks the declared size of a stored snapshot before its bytes are read.
pub fn check_declared(size: i64, payload_size: i64) -> (r: Result<(), HarnessStoreError>)
    ensures
        harness_fault(r) == declared_fault(size, payload_size),
{
    if size < 0 || size != payload_size || size as u64 > MAX_HARNESS_SNAPSHOT_BYTES as u64 {
        return Err(corrupt("stored harness snapshot has an invalid declared size"));
    }
    Ok(())
}

/// The snapshot that stored bytes hold under an address, or why they are refused.
pub open spec fn stored_read(digest: Seq<char>, bytes: Seq<u8>) -> Result<
    SnapshotView,
    HarnessStoreFault,
> {
    match snapshot_read(bytes) {
        Err(e) => Err(HarnessStoreFault::Corrupt(e.words())),
        Ok(snapshot) => if snapshot.digest != digest {
            Err(
                HarnessStoreFault::Corrupt("stored harness snapshot does not address its own key"@),
            )
        } else {
            Ok(snapshot)
        },
    }
}

/// Reads a stored snapshot, which must stand under its own address.
pub fn decode_snapshot(digest: &str, bytes: &[u8]) -> (r: Result<
    HarnessSnapshot,
    HarnessStoreError,
>)
    ensures
        match stored_read(digest@, bytes@) {
            Ok(s) => r is Ok && r->Ok_0@ == s,
            Err(e) => harness_fault(r) == Some(e),
        },
{
    let snapshot = match HarnessSnapshot::from_json_slice(bytes) {
        Ok(snapshot) => snapshot,
        Err(error) => {
            return Err(HarnessStoreError::Corrupt(error.describe()));
        },
    };
    if !same_text(snapshot.digest(), digest) {
        return Err(corrupt("stored harness snapshot does not address its own key"));
    }
    Ok(snapshot)
}

/// Writes a snapshot down for storing.
pub fn write_snapshot(snapshot: &HarnessSnapshot) -> (r: Result<Vec<u8>, HarnessStoreError>)
    ensures
        match snapshot_bytes(snapshot@) {
            Ok(bytes) => r is Ok && r->Ok_0@ == bytes && stored_read(snapshot@.digest, bytes)
                == Ok::<SnapshotView, HarnessStoreFault>(snapshot@),
            Err(e) => harness_fault(r) == Some(HarnessStoreFault::Validation(e.words())),
        },
{
    match snapshot.to_json_vec() {
        Ok(bytes) => Ok(bytes),
        Err(error) => Err(HarnessStoreError::Validation(error.describe())),
    }
}

/// What is stored, by address.
pub type Snapshots = Map<Seq<char>, SnapshotView>;

/// The refusal to write where the address already leads to other content.
pub open spec fn foreign_content() -> HarnessStoreFault {
    HarnessStoreFault::Corrupt("stored content under this digest is not the addressed snapshot"@)
}

/// Decides on a write from what the address leads to.
pub fn decide_put(stored: &Option<HarnessSnapshot>, snapshot: &HarnessSnapshot) -> (r: Result<
    HarnessPut,
    HarnessStoreError,
>)
    ensures
        match stored {
            None => r == Ok::<HarnessPut, HarnessStoreError>(HarnessPut::Stored),
            Some(s) => if s@ == snapshot@ {
                r == Ok::<HarnessPut, HarnessStoreError>(HarnessPut::AlreadyPresent)
            } else {
                harness_fault(r) == Some(foreign_content())
            },
        },
{
    match stored {
        None => Ok(HarnessPut::Stored),
        Some(present) => if present.same(snapshot) {
            Ok(HarnessPut::AlreadyPresent)
        } else {
            Err(corrupt("stored content under this digest is not the addressed snapshot"))
        },
    }
}

/// What an address leads to.
pub open spec fn snapshot_at(snapshots: Snapshots, digest: Seq<char>) -> Option<SnapshotView> {
    if snapshots.dom().contains(digest) {
        Some(snapshots[digest])
    } else {
        None
    }
}

/// What a write answers, and what is stored after it.
pub open spec fn put_on(snapshots: Snapshots, s: SnapshotView) -> (
    Result<HarnessPut, HarnessStoreFault>,
    Snapshots,
) {
    match snapshot_bytes(s) {
        Err(e) => (Err(HarnessStoreFault::Validation(e.words())), snapshots),
        Ok(_) => match snapshot_at(snapshots, s.digest) {
            None => (Ok(HarnessPut::Stored), snapshots.insert(s.digest, s)),
            Some(present) => if present == s {
                (Ok(HarnessPut::AlreadyPresent), snapshots)
            } else {
                (Err(foreign_content()), snapshots)
            },
        },
    }
}

/// What an address leads to never changes, whatever is written.
pub proof fn law_stored_content_never_changes(snapshots: Snapshots, s: SnapshotView)
    ensures
        forall|k: Seq<char>| #[trigger]
            snapshots.dom().contains(k) ==> snapshot_at(put_on(snapshots, s).1, k) == Some(
                snapshots[k],
            ),
{
}

/// A write that succeeds is read back, and a second one changes nothing.
pub proof fn law_writes_are_idempotent(snapshots: Snapshots, s: SnapshotView)
    requires
        put_on(snapshots, s).0 is Ok,
    ensures
        ({
            let after = put_on(snapshots, s).1;
            &&& snapshot_at(after, s.digest) == Some(s)
            &&& put_on(after, s) == (
                Ok::<HarnessPut, HarnessStoreFault>(HarnessPut::AlreadyPresent),
                after,
            )
        }),
{
}

/// A write that can be written down is stored exactly where its address leads nowhere, is present
/// where the address leads to the same snapshot, and is refused where it leads to another. Only a
/// stored one changes anything, and its own address alone.
pub proof fn law_addresses_are_taken_once(snapshots: Snapshots, s: SnapshotView)
    requires
        snapshot_bytes(s) is Ok,
    ensures
        ({
            let (answer, after) = put_on(snapshots, s);
            let taken = snapshots.dom().contains(s.digest);
            &&& (answer matches Ok(HarnessPut::Stored)) <==> !taken
            &&& (answer matches Ok(HarnessPut::AlreadyPresent)) <==> taken && snapshots[s.digest]
                == s
            &&& answer is Err <==> taken && snapshots[s.digest] != s
            &&& answer matches Ok(HarnessPut::Stored) ==> {
                &&& after.dom() == snapshots.dom().insert(s.digest)
                &&& after[s.digest] == s
                &&& forall|k: Seq<char>| k != s.digest ==> #[trigger] after[k] == snapshots[k]
            }
            &&& !(answer matches Ok(HarnessPut::Stored)) ==> after == snapshots
        }),
{
}

/// A loaded snapshot.
pub open spec fn gotten(r: Result<Option<HarnessSnapshot>, HarnessStoreError>) -> Result<
    Option<SnapshotView>,
    HarnessStoreFault,
> {
    match r {
        Ok(Some(s)) => Ok(Some(s@)),
        Ok(None) => Ok(None),
        Err(e) => Err(e@),
    }
}

/// What a store answered, with its fault.
pub open spec fn told<T>(r: Result<T, HarnessStoreError>) -> Result<T, HarnessStoreFault> {
    match r {
        Ok(t) => Ok(t),
        Err(e) => Err(e@),
    }
}

/// One thing that was asked of a store, with its answer. Opening a handle, going on through
/// another one and giving all of them up are asked by a suite alone.
pub enum HarnessCall {
    Open(ConformanceOpen, Result<(), HarnessStoreFault>),
    Through(ConformanceOpen),
    GiveUp,
    Get(Seq<char>, Result<Option<SnapshotView>, HarnessStoreFault>),
    Put(SnapshotView, Result<HarnessPut, HarnessStoreFault>),
    Contains(Seq<char>, Result<bool, HarnessStoreFault>),
}

/// The durable authority of harness snapshots. An implementation that is `lawful` keeps
/// `snapshots` and answers from them alone; that a repeated write found its content in place it may
/// leave unsaid. Of any other nothing is promised but that `calls` tells what it was asked and
/// what it answered.
pub trait HarnessStore: Sized {
    /// Whether the implementation keeps the contract. One that does not say is not taken to.
    open spec fn lawful(&self) -> bool {
        false
    }

    /// What it stores.
    open spec fn snapshots(&self) -> Snapshots {
        Map::empty()
    }

    /// What it was asked and what it answered, in order. It is a history and nothing that is
    /// stored; an implementation that is itself verified keeps it as ghost state.
    open spec fn calls(&self) -> Seq<HarnessCall> {
        Seq::empty()
    }

    fn get(&mut self, digest: &str) -> (r: Result<Option<HarnessSnapshot>, HarnessStoreError>)
        ensures
            final(self).calls() == old(self).calls().push(HarnessCall::Get(digest@, gotten(r))),
            old(self).lawful() ==> final(self).lawful() && final(self).snapshots() == old(
                self).snapshots() && gotten(r) == Ok::<Option<SnapshotView>, HarnessStoreFault>(
                snapshot_at(old(self).snapshots(), digest@),
            ),
    ;

    /// Stores a snapshot under its own address, once.
    fn put(&mut self, snapshot: &HarnessSnapshot) -> (r: Result<HarnessPut, HarnessStoreError>)
        ensures
            final(self).calls() == old(self).calls().push(HarnessCall::Put(snapshot@, told(r))),
            old(self).lawful() ==> {
                let (answer, after) = put_on(old(self).snapshots(), snapshot@);
                &&& final(self).lawful()
                &&& final(self).snapshots() == after
                &&& told(r) == answer || (answer == Ok::<HarnessPut, HarnessStoreFault>(
                    HarnessPut::AlreadyPresent,
                ) && told(r) == Ok::<HarnessPut, HarnessStoreFault>(HarnessPut::CommitUnknown))
            },
    ;

    fn contains(&mut self, digest: &str) -> (r: Result<bool, HarnessStoreError>)
        ensures
            final(self).calls() == old(self).calls().push(HarnessCall::Contains(digest@, told(r))),
            old(self).lawful() ==> final(self).lawful() && final(self).snapshots() == old(
                self).snapshots() && r == Ok::<bool, HarnessStoreError>(
                snapshot_at(old(self).snapshots(), digest@) is Some,
            ),
    ;
}

/// A store that keeps its snapshots in memory, with what was asked of it.
pub struct HarnessBook {
    snapshots: TextMap<HarnessSnapshot>,
    calls: Ghost<Seq<HarnessCall>>,
}

impl HarnessBook {
    /// An empty store.
    pub fn new() -> (r: HarnessBook)
        ensures
            r.snapshots() == Snapshots::empty(),
            r.calls() == Seq::<HarnessCall>::empty(),
            r.lawful(),
    {
        let r = HarnessBook { snapshots: TextMap::new(), calls: Ghost(Seq::empty()) };
        proof {
            assert(r.snapshots() =~= Snapshots::empty());
        }
        r
    }

    /// Notes one thing that the book was asked.
    pub(crate) fn note(&mut self, call: Ghost<HarnessCall>)
        ensures
            final(self).snapshots() == old(self).snapshots(),
            final(self).calls() == old(self).calls().push(call@),
    {
        self.calls = Ghost(self.calls@.push(call@));
    }

    fn find(&self, digest: &str) -> (r: Option<HarnessSnapshot>)
        ensures
            (match r {
                Some(s) => Some(s@),
                None => None,
            }) == snapshot_at(self.snapshots(), digest@),
    {
        match self.snapshots.get(digest) {
            Some(snapshot) => Some(snapshot.duplicate()),
            None => None,
        }
    }

    fn file(&mut self, snapshot: &HarnessSnapshot) -> (r: Result<HarnessPut, HarnessStoreError>)
        ensures
            final(self).calls() == old(self).calls(),
            (told(r), final(self).snapshots()) == put_on(old(self).snapshots(), snapshot@),
    {
        write_snapshot(snapshot)?;
        let present = self.find(snapshot.digest());
        let decision = decide_put(&present, snapshot)?;
        if decision == HarnessPut::Stored {
            let ghost before = self.snapshots();
            self.snapshots.insert(snapshot.digest(), snapshot.duplicate());
            proof {
                assert(self.snapshots() =~= before.insert(snapshot@.digest, snapshot@));
            }
        }
        Ok(decision)
    }
}

impl HarnessStore for HarnessBook {
    open spec fn lawful(&self) -> bool {
        true
    }

    closed spec fn snapshots(&self) -> Snapshots {
        self.snapshots@.map_values(|s: HarnessSnapshot| s@)
    }

    closed spec fn calls(&self) -> Seq<HarnessCall> {
        self.calls@
    }

    fn get(&mut self, digest: &str) -> (r: Result<Option<HarnessSnapshot>, HarnessStoreError>) {
        let r: Result<Option<HarnessSnapshot>, HarnessStoreError> = Ok(self.find(digest));
        self.note(Ghost(HarnessCall::Get(digest@, gotten(r))));
        r
    }

    fn put(&mut self, snapshot: &HarnessSnapshot) -> (r: Result<HarnessPut, HarnessStoreError>) {
        let r = self.file(snapshot);
        self.note(Ghost(HarnessCall::Put(snapshot@, told(r))));
        r
    }

    fn contains(&mut self, digest: &str) -> (r: Result<bool, HarnessStoreError>) {
        let r: Result<bool, HarnessStoreError> = Ok(self.find(digest).is_some());
        self.note(Ghost(HarnessCall::Contains(digest@, told(r))));
        r
    }
}

/// A stored snapshot is read exactly where its bytes hold one that stands under the address that it
/// is read for, and it is that one.
pub proof fn law_stored_snapshots_stand_under_their_address(digest: Seq<char>, bytes: Seq<u8>)
    ensures
        stored_read(digest, bytes) matches Ok(snapshot) ==> snapshot.digest == digest
            && snapshot_read(bytes) == Ok::<SnapshotView, crate::evolution::Refusal>(snapshot),
        snapshot_read(bytes) matches Ok(snapshot) ==> (stored_read(digest, bytes) is Ok
            <==> snapshot.digest == digest),
{
}

} // verus!
