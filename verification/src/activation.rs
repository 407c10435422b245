//! Durable activation coordination: which work is due, who may execute it, whether that
//! permission still holds, and whether the outcome is already recorded.
//!
//! A worker claims a due item and receives a fencing token, which grows with every claim of the
//! item and is never reused. Renewals and releases carry the token, and an assertion whose token
//! is not the one currently honoured is refused. Time is always supplied by the caller.

pub mod book;
pub mod conformance;
pub mod course;
pub mod item;
pub mod laws;
pub mod script;
pub mod shown;

use crate::text::{check_line, decimal, line_fault, push_decimal, same_text};
use vstd::prelude::*;

verus! {

/// Largest work item identity, in bytes.
pub const MAX_ACTIVATION_ITEM_ID_BYTES: usize = 256;

/// Largest worker identity, in bytes.
pub const MAX_ACTIVATION_WORKER_ID_BYTES: usize = 256;

/// Largest opaque payload of one work item, in bytes.
pub const MAX_ACTIVATION_PAYLOAD_BYTES: usize = 65_536;

/// Largest lease that a claim or renewal may ask for, in milliseconds.
pub const MAX_ACTIVATION_LEASE_MS: u64 = 86_400_000;

/// Largest number of work items that one claim may take.
pub const MAX_ACTIVATION_CLAIM_BATCH: usize = 256;

pub const ACTIVATION_STORE_SCHEMA_MARKER: &'static str = "sophon-sdk.activation-coordinator";

pub const ACTIVATION_STORE_SCHEMA_VERSION: u32 = 1;

/// Why the coordinator refused something.
#[derive(Clone, Debug, PartialEq, Eq)]
pub enum ActivationError {
    Validation(String),
    Corrupt(String),
    Storage(String),
}

/// What an [`ActivationError`] says.
pub enum ActivationFault {
    Validation(Seq<char>),
    Corrupt(Seq<char>),
    Storage(Seq<char>),
}

impl View for ActivationError {
    type V = ActivationFault;

    open spec fn view(&self) -> ActivationFault {
        match self {
            ActivationError::Validation(m) => ActivationFault::Validation(m@),
            ActivationError::Corrupt(m) => ActivationFault::Corrupt(m@),
            ActivationError::Storage(m) => ActivationFault::Storage(m@),
        }
    }
}

impl ActivationFault {
    /// The fault in words.
    pub open spec fn words(self) -> Seq<char> {
        match self {
            ActivationFault::Validation(m) => "activation input is invalid: "@ + m,
            ActivationFault::Corrupt(m) => "stored activation state is corrupt: "@ + m,
            ActivationFault::Storage(m) => "activation storage failed: "@ + m,
        }
    }
}

impl ActivationError {
    /// The error in words.
    pub fn describe(&self) -> (r: String)
        ensures
            r@ == self@.words(),
    {
        let (head, message) = match self {
            ActivationError::Validation(m) => ("activation input is invalid: ", m),
            ActivationError::Corrupt(m) => ("stored activation state is corrupt: ", m),
            ActivationError::Storage(m) => ("activation storage failed: ", m),
        };
        let mut out = head.to_owned();
        out.append(message.as_str());
        out
    }
}

/// The fault that a result carries.
pub open spec fn fault<T>(r: Result<T, ActivationError>) -> Option<ActivationFault> {
    match r {
        Ok(_) => None,
        Err(e) => Some(e@),
    }
}

/// What is wrong with an identity: it is empty, too long, holds a control character, or begins
/// or ends with whitespace.
pub open spec fn identity_fault(label: Seq<char>, value: Seq<char>, limit: usize) -> Option<
    ActivationFault,
> {
    match line_fault(label, value, limit) {
        Some(message) => Some(ActivationFault::Validation(message)),
        None => None,
    }
}

/// Checks an identity.
pub fn validate_identity(label: &str, value: &str, limit: usize) -> (r: Result<
    (),
    ActivationError,
>)
    ensures
        fault(r) == identity_fault(label@, value@, limit),
{
    match check_line(label, value, limit) {
        Some(message) => Err(ActivationError::Validation(message)),
        None => Ok(()),
    }
}

/// What is wrong with a work item identity.
pub open spec fn item_id_fault(value: Seq<char>) -> Option<ActivationFault> {
    identity_fault("work item id"@, value, MAX_ACTIVATION_ITEM_ID_BYTES)
}

/// What is wrong with a worker identity.
pub open spec fn worker_id_fault(value: Seq<char>) -> Option<ActivationFault> {
    identity_fault("worker id"@, value, MAX_ACTIVATION_WORKER_ID_BYTES)
}

/// The stable identity of one unit of schedulable work. The coordinator never parses it.
#[derive(Clone, Debug, PartialEq, Eq, PartialOrd, Ord, Hash)]
pub struct ActivationItemId(pub(crate) String);

impl View for ActivationItemId {
    type V = Seq<char>;

    closed spec fn view(&self) -> Seq<char> {
        self.0@
    }
}

impl ActivationItemId {
    pub fn new(value: &str) -> (r: Result<ActivationItemId, ActivationError>)
        ensures
            match r {
                Ok(id) => id@ == value@ && item_id_fault(value@) is None,
                Err(e) => item_id_fault(value@) == Some(e@),
            },
    {
        validate_identity("work item id", value, MAX_ACTIVATION_ITEM_ID_BYTES)?;
        Ok(ActivationItemId(value.to_owned()))
    }

    pub fn as_str(&self) -> (r: &str)
        ensures
            r@ == self@,
    {
        self.0.as_str()
    }

    /// A second copy of the identity.
    pub fn duplicate(&self) -> (r: ActivationItemId)
        ensures
            r@ == self@,
    {
        ActivationItemId(self.0.clone())
    }
}

/// The identity of one supervisor that competes for work items.
#[derive(Clone, Debug, PartialEq, Eq, PartialOrd, Ord, Hash)]
pub struct ActivationWorkerId(pub(crate) String);

impl View for ActivationWorkerId {
    type V = Seq<char>;

    closed spec fn view(&self) -> Seq<char> {
        self.0@
    }
}

impl ActivationWorkerId {
    pub fn new(value: &str) -> (r: Result<ActivationWorkerId, ActivationError>)
        ensures
            match r {
                Ok(id) => id@ == value@ && worker_id_fault(value@) is None,
                Err(e) => worker_id_fault(value@) == Some(e@),
            },
    {
        validate_identity("worker id", value, MAX_ACTIVATION_WORKER_ID_BYTES)?;
        Ok(ActivationWorkerId(value.to_owned()))
    }

    pub fn as_str(&self) -> (r: &str)
        ensures
            r@ == self@,
    {
        self.0.as_str()
    }

    /// A second copy of the identity.
    pub fn duplicate(&self) -> (r: ActivationWorkerId)
        ensures
            r@ == self@,
    {
        ActivationWorkerId(self.0.clone())
    }

    /// Whether two identities are the same.
    pub fn same(&self, other: &ActivationWorkerId) -> (r: bool)
        ensures
            r == (self@ == other@),
    {
        same_text(self.0.as_str(), other.0.as_str())
    }
}

/// Permission to act on one work item. A token lower than the item's current one names a worker
/// that has been superseded.
#[derive(Clone, Copy, Debug, PartialEq, Eq, PartialOrd, Ord, Hash, Structural)]
pub struct ActivationFencingToken(pub u64);

impl ActivationFencingToken {
    pub fn new(value: u64) -> (r: ActivationFencingToken)
        ensures
            r.0 == value,
    {
        ActivationFencingToken(value)
    }

    pub fn get(self) -> (r: u64)
        ensures
            r == self.0,
    {
        self.0
    }
}

/// A copy of some bytes.
pub fn copy_bytes(bytes: &Vec<u8>) -> (r: Vec<u8>)
    ensures
        r@ == bytes@,
{
    let mut out: Vec<u8> = Vec::new();
    crate::digest::push_bytes(&mut out, bytes.as_slice());
    proof {
        assert(out@ =~= bytes@);
    }
    out
}

/// Whether two byte strings are the same.
pub fn same_bytes(a: &Vec<u8>, b: &Vec<u8>) -> (r: bool)
    ensures
        r == (a@ == b@),
{
    if a.len() != b.len() {
        return false;
    }
    let mut i: usize = 0;
    while i < a.len()
        invariant
            i <= a@.len(),
            a@.len() == b@.len(),
            forall|j: int| 0 <= j < i ==> a@[j] == b@[j],
        decreases a@.len() - i,
    {
        if a[i] != b[i] {
            return false;
        }
        i += 1;
    }
    proof {
        assert(a@ =~= b@);
    }
    true
}

/// The registration or rescheduling of one work item.
#[derive(Debug, PartialEq, Eq)]
pub struct ActivationWake {
    pub(crate) item_id: ActivationItemId,
    pub(crate) due_at_ms: u64,
    pub(crate) payload: Vec<u8>,
}

/// What an [`ActivationWake`] says.
pub struct WakeView {
    pub item_id: Seq<char>,
    pub due_at_ms: u64,
    pub payload: Seq<u8>,
}

impl View for ActivationWake {
    type V = WakeView;

    closed spec fn view(&self) -> WakeView {
        WakeView { item_id: self.item_id@, due_at_ms: self.due_at_ms, payload: self.payload@ }
    }
}

impl ActivationWake {
    pub fn new(item_id: ActivationItemId, due_at_ms: u64) -> (r: ActivationWake)
        ensures
            r@ == (WakeView { item_id: item_id@, due_at_ms, payload: Seq::empty() }),
    {
        ActivationWake { item_id, due_at_ms, payload: Vec::new() }
    }

    /// Attaches the opaque bytes that every grant of the item hands back.
    pub fn with_payload(self, payload: Vec<u8>) -> (r: Result<ActivationWake, ActivationError>)
        ensures
            match r {
                Ok(wake) => payload@.len() <= MAX_ACTIVATION_PAYLOAD_BYTES && wake@ == (WakeView {
                    payload: payload@,
                    ..self@
                }),
                Err(e) => payload@.len() > MAX_ACTIVATION_PAYLOAD_BYTES && e@
                    == ActivationFault::Validation(
                    "work item payload exceeds "@ + decimal(MAX_ACTIVATION_PAYLOAD_BYTES as nat)
                        + " bytes"@,
                ),
            },
    {
        if payload.len() > MAX_ACTIVATION_PAYLOAD_BYTES {
            let mut out = "work item payload exceeds ".to_owned();
            push_decimal(&mut out, MAX_ACTIVATION_PAYLOAD_BYTES as u64);
            out.append(" bytes");
            return Err(ActivationError::Validation(out));
        }
        Ok(ActivationWake { item_id: self.item_id, due_at_ms: self.due_at_ms, payload })
    }

    pub fn item_id(&self) -> (r: &ActivationItemId)
        ensures
            r@ == self@.item_id,
    {
        &self.item_id
    }

    pub fn due_at_ms(&self) -> (r: u64)
        ensures
            r == self@.due_at_ms,
    {
        self.due_at_ms
    }

    pub fn payload(&self) -> (r: &Vec<u8>)
        ensures
            r@ == self@.payload,
    {
        &self.payload
    }
}

/// What a wake did to the queue.
#[derive(Clone, Copy, Debug, PartialEq, Eq, Structural)]
pub enum ActivationWakeOutcome {
    /// The identity was unknown and is now queued.
    Registered,
    /// A known item's due time or payload moved.
    Rescheduled,
    /// The item was already queued exactly this way.
    Unchanged,
    /// A worker holds an unexpired lease, so the schedule is that worker's to settle.
    Held,
}

/// A worker's request to take due work.
#[derive(Debug, PartialEq, Eq)]
pub struct ActivationClaimRequest {
    pub(crate) worker_id: ActivationWorkerId,
    pub(crate) now_ms: u64,
    pub(crate) lease_ms: u64,
    pub(crate) limit: usize,
}

/// What an [`ActivationClaimRequest`] says.
pub struct RequestView {
    pub worker_id: Seq<char>,
    pub now_ms: u64,
    pub lease_ms: u64,
    pub limit: usize,
}

impl View for ActivationClaimRequest {
    type V = RequestView;

    closed spec fn view(&self) -> RequestView {
        RequestView {
            worker_id: self.worker_id@,
            now_ms: self.now_ms,
            lease_ms: self.lease_ms,
            limit: self.limit,
        }
    }
}

/// What is wrong with the length of a lease that begins at an instant.
pub open spec fn lease_bound_fault(lease_ms: u64) -> Option<ActivationFault> {
    if lease_ms == 0 || lease_ms > MAX_ACTIVATION_LEASE_MS {
        Some(
            ActivationFault::Validation(
                "activation lease must be between 1ms and "@ + decimal(
                    MAX_ACTIVATION_LEASE_MS as nat,
                ) + "ms"@,
            ),
        )
    } else {
        None
    }
}

/// The refusal of a lease that would outrun the clock.
pub open spec fn lease_overflow() -> ActivationFault {
    ActivationFault::Validation("lease expiry overflows the millisecond clock"@)
}

/// What is wrong with a claim request.
pub open spec fn request_fault(now_ms: u64, lease_ms: u64, limit: usize) -> Option<
    ActivationFault,
> {
    if lease_bound_fault(lease_ms) is Some {
        lease_bound_fault(lease_ms)
    } else if limit == 0 || limit > MAX_ACTIVATION_CLAIM_BATCH {
        Some(
            ActivationFault::Validation(
                "claim batch must be between 1 and "@ + decimal(MAX_ACTIVATION_CLAIM_BATCH as nat),
            ),
        )
    } else if now_ms + lease_ms > u64::MAX {
        Some(lease_overflow())
    } else {
        None
    }
}

/// Checks the length of a lease.
pub fn validate_lease(lease_ms: u64) -> (r: Result<(), ActivationError>)
    ensures
        fault(r) == lease_bound_fault(lease_ms),
{
    if lease_ms == 0 || lease_ms > MAX_ACTIVATION_LEASE_MS {
        let mut out = "activation lease must be between 1ms and ".to_owned();
        push_decimal(&mut out, MAX_ACTIVATION_LEASE_MS);
        out.append("ms");
        return Err(ActivationError::Validation(out));
    }
    Ok(())
}

/// The refusal of a lease that would outrun the clock.
pub fn lease_overflow_error() -> (r: ActivationError)
    ensures
        r@ == lease_overflow(),
{
    ActivationError::Validation("lease expiry overflows the millisecond clock".to_owned())
}

impl RequestView {
    /// When a lease granted on the request expires.
    pub open spec fn expires_at_ms(self) -> u64 {
        if self.now_ms + self.lease_ms <= u64::MAX {
            (self.now_ms + self.lease_ms) as u64
        } else {
            u64::MAX
        }
    }
}

impl ActivationClaimRequest {
    pub fn new(
        worker_id: ActivationWorkerId,
        now_ms: u64,
        lease_ms: u64,
        limit: usize,
    ) -> (r: Result<ActivationClaimRequest, ActivationError>)
        ensures
            match r {
                Ok(request) => request_fault(now_ms, lease_ms, limit) is None && request@ == (
                RequestView { worker_id: worker_id@, now_ms, lease_ms, limit }),
                Err(e) => request_fault(now_ms, lease_ms, limit) == Some(e@),
            },
    {
        validate_lease(lease_ms)?;
        if limit == 0 || limit > MAX_ACTIVATION_CLAIM_BATCH {
            let mut out = "claim batch must be between 1 and ".to_owned();
            push_decimal(&mut out, MAX_ACTIVATION_CLAIM_BATCH as u64);
            return Err(ActivationError::Validation(out));
        }
        if now_ms > u64::MAX - lease_ms {
            return Err(lease_overflow_error());
        }
        Ok(ActivationClaimRequest { worker_id, now_ms, lease_ms, limit })
    }

    pub fn worker_id(&self) -> (r: &ActivationWorkerId)
        ensures
            r@ == self@.worker_id,
    {
        &self.worker_id
    }

    pub fn now_ms(&self) -> (r: u64)
        ensures
            r == self@.now_ms,
    {
        self.now_ms
    }

    pub fn lease_ms(&self) -> (r: u64)
        ensures
            r == self@.lease_ms,
    {
        self.lease_ms
    }

    pub fn limit(&self) -> (r: usize)
        ensures
            r == self@.limit,
    {
        self.limit
    }

    /// When a lease granted on the request expires.
    pub fn expires_at_ms(&self) -> (r: u64)
        ensures
            r == self@.expires_at_ms(),
    {
        self.now_ms.saturating_add(self.lease_ms)
    }
}

/// Exclusive, expiring permission to execute one work item.
#[derive(Debug, PartialEq, Eq)]
pub struct ActivationGrant {
    pub(crate) item_id: ActivationItemId,
    pub(crate) worker_id: ActivationWorkerId,
    pub(crate) token: ActivationFencingToken,
    pub(crate) due_at_ms: u64,
    pub(crate) expires_at_ms: u64,
    pub(crate) attempt: u64,
    pub(crate) payload: Vec<u8>,
}

/// What an [`ActivationGrant`] says.
pub struct GrantView {
    pub item_id: Seq<char>,
    pub worker_id: Seq<char>,
    pub token: u64,
    pub due_at_ms: u64,
    pub expires_at_ms: u64,
    pub attempt: u64,
    pub payload: Seq<u8>,
}

impl View for ActivationGrant {
    type V = GrantView;

    closed spec fn view(&self) -> GrantView {
        GrantView {
            item_id: self.item_id@,
            worker_id: self.worker_id@,
            token: self.token.0,
            due_at_ms: self.due_at_ms,
            expires_at_ms: self.expires_at_ms,
            attempt: self.attempt,
            payload: self.payload@,
        }
    }
}

impl ActivationGrant {
    pub fn new(
        item_id: ActivationItemId,
        worker_id: ActivationWorkerId,
        token: ActivationFencingToken,
        due_at_ms: u64,
        expires_at_ms: u64,
        attempt: u64,
        payload: Vec<u8>,
    ) -> (r: ActivationGrant)
        ensures
            r@ == (GrantView {
                item_id: item_id@,
                worker_id: worker_id@,
                token: token.0,
                due_at_ms,
                expires_at_ms,
                attempt,
                payload: payload@,
            }),
    {
        ActivationGrant {
            item_id,
            worker_id,
            token,
            due_at_ms,
            expires_at_ms,
            attempt,
            payload,
        }
    }

    pub fn item_id(&self) -> (r: &ActivationItemId)
        ensures
            r@ == self@.item_id,
    {
        &self.item_id
    }

    pub fn worker_id(&self) -> (r: &ActivationWorkerId)
        ensures
            r@ == self@.worker_id,
    {
        &self.worker_id
    }

    pub fn token(&self) -> (r: ActivationFencingToken)
        ensures
            r.0 == self@.token,
    {
        self.token
    }

    /// The due time that the grant answers.
    pub fn due_at_ms(&self) -> (r: u64)
        ensures
            r == self@.due_at_ms,
    {
        self.due_at_ms
    }

    pub fn expires_at_ms(&self) -> (r: u64)
        ensures
            r == self@.expires_at_ms,
    {
        self.expires_at_ms
    }

    /// How many times the item has been granted, this grant included.
    pub fn attempt(&self) -> (r: u64)
        ensures
            r == self@.attempt,
    {
        self.attempt
    }

    pub fn payload(&self) -> (r: &Vec<u8>)
        ensures
            r@ == self@.payload,
    {
        &self.payload
    }

    /// The fence to present on every later assertion about the item.
    pub fn handle(&self) -> (r: ActivationHandle)
        ensures
            r@ == self@.handle(),
    {
        ActivationHandle::new(self.item_id.duplicate(), self.worker_id.duplicate(), self.token)
    }
}

/// The fence that a worker presents to renew or release work.
#[derive(Debug, PartialEq, Eq)]
pub struct ActivationHandle {
    pub(crate) item_id: ActivationItemId,
    pub(crate) worker_id: ActivationWorkerId,
    pub(crate) token: ActivationFencingToken,
}

/// What an [`ActivationHandle`] says.
pub struct HandleView {
    pub item_id: Seq<char>,
    pub worker_id: Seq<char>,
    pub token: u64,
}

impl View for ActivationHandle {
    type V = HandleView;

    closed spec fn view(&self) -> HandleView {
        HandleView {
            item_id: self.item_id@,
            worker_id: self.worker_id@,
            token: self.token.0,
        }
    }
}

impl GrantView {
    /// The fence of a grant.
    pub open spec fn handle(self) -> HandleView {
        HandleView { item_id: self.item_id, worker_id: self.worker_id, token: self.token }
    }
}

impl ActivationHandle {
    pub fn new(
        item_id: ActivationItemId,
        worker_id: ActivationWorkerId,
        token: ActivationFencingToken,
    ) -> (r: ActivationHandle)
        ensures
            r@ == (HandleView { item_id: item_id@, worker_id: worker_id@, token: token.0 }),
    {
        ActivationHandle { item_id, worker_id, token }
    }

    pub fn item_id(&self) -> (r: &ActivationItemId)
        ensures
            r@ == self@.item_id,
    {
        &self.item_id
    }

    pub fn worker_id(&self) -> (r: &ActivationWorkerId)
        ensures
            r@ == self@.worker_id,
    {
        &self.worker_id
    }

    pub fn token(&self) -> (r: ActivationFencingToken)
        ensures
            r.0 == self@.token,
    {
        self.token
    }
}

/// The answer to a claim of one named work item.
#[derive(Debug, PartialEq, Eq)]
pub enum ActivationClaim {
    Granted(ActivationGrant),
    /// Another worker's lease is still live.
    Held { worker_id: ActivationWorkerId, expires_at_ms: u64 },
    /// The due time has not come.
    NotDue { due_at_ms: u64 },
    /// The item was completed and not woken since.
    Settled,
    /// There is no such item.
    Unknown,
}

/// What an [`ActivationClaim`] says.
pub enum ClaimView {
    Granted(GrantView),
    Held { worker_id: Seq<char>, expires_at_ms: u64 },
    NotDue { due_at_ms: u64 },
    Settled,
    Unknown,
}

impl View for ActivationClaim {
    type V = ClaimView;

    open spec fn view(&self) -> ClaimView {
        match self {
            ActivationClaim::Granted(grant) => ClaimView::Granted(grant@),
            ActivationClaim::Held { worker_id, expires_at_ms } => ClaimView::Held {
                worker_id: worker_id@,
                expires_at_ms: *expires_at_ms,
            },
            ActivationClaim::NotDue { due_at_ms } => ClaimView::NotDue { due_at_ms: *due_at_ms },
            ActivationClaim::Settled => ClaimView::Settled,
            ActivationClaim::Unknown => ClaimView::Unknown,
        }
    }
}

/// The answer to a renewal.
#[derive(Clone, Copy, Debug, PartialEq, Eq, Structural)]
pub enum ActivationRenewal {
    Renewed { expires_at_ms: u64 },
    /// The presented token is not the one being honoured. The worker must stop.
    Fenced,
}

/// How a worker gives a work item back.
#[derive(Clone, Copy, Debug, PartialEq, Eq, Structural)]
pub enum ActivationDisposition {
    /// The work is done. The item keeps no due time until a later wake.
    Complete,
    /// The work is not done. The item becomes claimable again at `due_at_ms`.
    Yield { due_at_ms: u64 },
}

/// The answer to a release.
#[derive(Clone, Copy, Debug, PartialEq, Eq, Structural)]
pub enum ActivationSettlement {
    /// The release recorded the outcome.
    Settled,
    /// This exact token had already settled the item.
    AlreadySettled,
    /// The presented token is not the one being honoured. Nothing was recorded.
    Fenced,
}

/// The lease recorded against a work item.
#[derive(Debug, PartialEq, Eq)]
pub struct ActivationLeaseState {
    pub worker_id: ActivationWorkerId,
    pub token: ActivationFencingToken,
    pub expires_at_ms: u64,
}

/// What an [`ActivationLeaseState`] says.
pub struct LeaseView {
    pub worker_id: Seq<char>,
    pub token: u64,
    pub expires_at_ms: u64,
}

impl View for ActivationLeaseState {
    type V = LeaseView;

    open spec fn view(&self) -> LeaseView {
        LeaseView {
            worker_id: self.worker_id@,
            token: self.token.0,
            expires_at_ms: self.expires_at_ms,
        }
    }
}

/// What an optional lease says.
pub open spec fn lease_view(lease: Option<ActivationLeaseState>) -> Option<LeaseView> {
    match lease {
        Some(l) => Some(l@),
        None => None,
    }
}

/// Everything that the coordinator knows about one work item.
#[derive(Debug, PartialEq, Eq)]
pub struct ActivationItemState {
    pub item_id: ActivationItemId,
    /// `None` once the item has been completed and not woken since.
    pub due_at_ms: Option<u64>,
    pub payload: Vec<u8>,
    pub attempt: u64,
    /// The highest token ever minted for the item.
    pub fencing_token: ActivationFencingToken,
    pub lease: Option<ActivationLeaseState>,
    pub settled_at_ms: Option<u64>,
}

/// What an [`ActivationItemState`] says.
pub struct ItemStateView {
    pub item_id: Seq<char>,
    pub due_at_ms: Option<u64>,
    pub payload: Seq<u8>,
    pub attempt: u64,
    pub fencing_token: u64,
    pub lease: Option<LeaseView>,
    pub settled_at_ms: Option<u64>,
}

impl View for ActivationItemState {
    type V = ItemStateView;

    open spec fn view(&self) -> ItemStateView {
        ItemStateView {
            item_id: self.item_id@,
            due_at_ms: self.due_at_ms,
            payload: self.payload@,
            attempt: self.attempt,
            fencing_token: self.fencing_token.0,
            lease: lease_view(self.lease),
            settled_at_ms: self.settled_at_ms,
        }
    }
}

impl ItemStateView {
    /// Whether a claim at an instant would be granted, batch limits left aside.
    pub open spec fn claimable_at(self, now_ms: u64) -> bool {
        &&& self.due_at_ms matches Some(due) && due <= now_ms
        &&& self.lease matches Some(lease) ==> lease.expires_at_ms <= now_ms
    }
}

impl ActivationItemState {
    /// Whether a claim at `now_ms` would be granted, batch limits left aside.
    pub fn is_claimable_at(&self, now_ms: u64) -> (r: bool)
        ensures
            r == self@.claimable_at(now_ms),
    {
        let due = match self.due_at_ms {
            Some(due) => due <= now_ms,
            None => false,
        };
        let free = match &self.lease {
            Some(lease) => lease.expires_at_ms <= now_ms,
            None => true,
        };
        due && free
    }
}

} // verus!
