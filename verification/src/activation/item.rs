//! One stored work item: reading it from a row, and what each operation makes of it.

use crate::activation::{
    copy_bytes, fault, item_id_fault, lease_bound_fault, lease_overflow, lease_overflow_error,
    lease_view, same_bytes, validate_lease, worker_id_fault, ActivationClaim,
    ActivationClaimRequest, ActivationDisposition, ActivationError, ActivationFault,
    ActivationFencingToken, ActivationGrant, ActivationHandle, ActivationItemId,
    ActivationItemState, ActivationLeaseState, ActivationRenewal, ActivationSettlement,
    ActivationWake, ActivationWakeOutcome, ActivationWorkerId, ClaimView, GrantView, HandleView,
    ItemStateView, LeaseView, RequestView, WakeView, MAX_ACTIVATION_PAYLOAD_BYTES,
};
use crate::text::option_view;
use vstd::prelude::*;

verus! {

/// One work item as it is stored.
#[derive(Debug, PartialEq, Eq)]
pub struct StoredItem {
    pub item_id: ActivationItemId,
    pub due_at_ms: Option<u64>,
    pub payload: Vec<u8>,
    pub attempt: u64,
    pub fencing_token: u64,
    pub lease: Option<ActivationLeaseState>,
    pub settled_at_ms: Option<u64>,
    pub settled_token: Option<u64>,
}

/// What a [`StoredItem`] says.
pub struct ItemView {
    pub item_id: Seq<char>,
    pub due_at_ms: Option<u64>,
    pub payload: Seq<u8>,
    pub attempt: u64,
    pub fencing_token: u64,
    pub lease: Option<LeaseView>,
    pub settled_at_ms: Option<u64>,
    pub settled_token: Option<u64>,
}

impl View for StoredItem {
    type V = ItemView;

    open spec fn view(&self) -> ItemView {
        ItemView {
            item_id: self.item_id@,
            due_at_ms: self.due_at_ms,
            payload: self.payload@,
            attempt: self.attempt,
            fencing_token: self.fencing_token,
            lease: lease_view(self.lease),
            settled_at_ms: self.settled_at_ms,
            settled_token: self.settled_token,
        }
    }
}

/// One row of the store, column by column.
#[derive(Debug, PartialEq, Eq)]
pub struct ActivationRow {
    pub item_id: String,
    pub due_at_ms: Option<i64>,
    pub payload: Vec<u8>,
    pub payload_size: i64,
    pub attempt: i64,
    pub fencing_token: i64,
    pub lease_worker: Option<String>,
    pub lease_token: Option<i64>,
    pub lease_expires_at_ms: Option<i64>,
    pub settled_at_ms: Option<i64>,
    pub settled_token: Option<i64>,
}

/// What an [`ActivationRow`] says.
pub struct RowView {
    pub item_id: Seq<char>,
    pub due_at_ms: Option<i64>,
    pub payload: Seq<u8>,
    pub payload_size: i64,
    pub attempt: i64,
    pub fencing_token: i64,
    pub lease_worker: Option<Seq<char>>,
    pub lease_token: Option<i64>,
    pub lease_expires_at_ms: Option<i64>,
    pub settled_at_ms: Option<i64>,
    pub settled_token: Option<i64>,
}

impl View for ActivationRow {
    type V = RowView;

    open spec fn view(&self) -> RowView {
        RowView {
            item_id: self.item_id@,
            due_at_ms: self.due_at_ms,
            payload: self.payload@,
            payload_size: self.payload_size,
            attempt: self.attempt,
            fencing_token: self.fencing_token,
            lease_worker: option_view(self.lease_worker),
            lease_token: self.lease_token,
            lease_expires_at_ms: self.lease_expires_at_ms,
            settled_at_ms: self.settled_at_ms,
            settled_token: self.settled_token,
        }
    }
}

/// Whether an optional number is below zero.
pub open spec fn below_zero(n: Option<i64>) -> bool {
    n matches Some(v) && v < 0
}

/// An optional number that is not below zero, read as unsigned.
pub open spec fn unsigned(n: Option<i64>) -> Option<u64> {
    match n {
        Some(v) => Some(v as u64),
        None => None,
    }
}

impl RowView {
    /// Whether a counter of the row is below zero.
    pub open spec fn negative(self) -> bool {
        ||| self.attempt < 0
        ||| self.fencing_token < 0
        ||| below_zero(self.due_at_ms)
        ||| below_zero(self.lease_token)
        ||| below_zero(self.lease_expires_at_ms)
        ||| below_zero(self.settled_at_ms)
        ||| below_zero(self.settled_token)
    }

    /// The lease that the row records; all three of its columns must be there.
    pub open spec fn lease(self) -> Option<LeaseView> {
        match (self.lease_worker, self.lease_token, self.lease_expires_at_ms) {
            (Some(worker_id), Some(token), Some(expires)) => Some(
                LeaseView { worker_id, token: token as u64, expires_at_ms: expires as u64 },
            ),
            _ => None,
        }
    }

    /// The item that the row records, its validity left aside.
    pub open spec fn item(self) -> ItemView {
        ItemView {
            item_id: self.item_id,
            due_at_ms: unsigned(self.due_at_ms),
            payload: self.payload,
            attempt: self.attempt as u64,
            fencing_token: self.fencing_token as u64,
            lease: self.lease(),
            settled_at_ms: unsigned(self.settled_at_ms),
            settled_token: unsigned(self.settled_token),
        }
    }
}

/// A refusal of stored state.
pub open spec fn corrupt_fault(message: Seq<char>) -> ActivationFault {
    ActivationFault::Corrupt(message)
}

/// What is wrong with a stored item, its counters' signs and its declared size left aside.
pub open spec fn item_fault(item: ItemView) -> Option<ActivationFault> {
    if item.payload.len() > MAX_ACTIVATION_PAYLOAD_BYTES {
        Some(corrupt_fault("stored payload exceeds the published bound"@))
    } else if item_id_fault(item.item_id) is Some {
        Some(corrupt_fault(item_id_fault(item.item_id)->0.words()))
    } else if item.lease is Some && worker_id_fault(item.lease->0.worker_id) is Some {
        Some(corrupt_fault(worker_id_fault(item.lease->0.worker_id)->0.words()))
    } else if item.lease is Some && item.lease->0.token > item.fencing_token {
        Some(corrupt_fault("stored lease outruns the item's fencing token"@))
    } else if item.settled_token is Some && item.settled_token->0 > item.fencing_token {
        Some(corrupt_fault("stored settlement outruns the item's fencing token"@))
    } else if item.due_at_ms is Some && item.settled_at_ms is Some {
        Some(corrupt_fault("stored item is both due and settled"@))
    } else {
        None
    }
}

/// What is wrong with a row.
pub open spec fn row_fault(row: RowView) -> Option<ActivationFault> {
    if row.negative() {
        Some(corrupt_fault("stored activation row holds a negative counter"@))
    } else if row.payload_size < 0 || row.payload_size != row.payload.len() {
        Some(corrupt_fault("stored payload does not match its declared size"@))
    } else {
        item_fault(row.item())
    }
}

/// Whether a number fits the store's signed columns.
pub open spec fn storable(n: u64) -> bool {
    n <= i64::MAX
}

/// Whether an optional number fits the store's signed columns.
pub open spec fn storable_option(n: Option<u64>) -> bool {
    n matches Some(v) ==> storable(v)
}

/// Whether an item is valid and can be stored.
pub open spec fn item_ok(item: ItemView) -> bool {
    &&& item_fault(item) is None
    &&& storable(item.attempt)
    &&& storable(item.fencing_token)
    &&& storable_option(item.due_at_ms)
    &&& storable_option(item.settled_at_ms)
    &&& storable_option(item.settled_token)
    &&& item.lease matches Some(lease) ==> storable(lease.token) && storable(lease.expires_at_ms)
}

/// The refusal of a number that the store cannot hold.
pub open spec fn unstorable() -> ActivationFault {
    ActivationFault::Validation("millisecond value exceeds the storable range"@)
}

fn corrupt(message: &str) -> (r: ActivationError)
    ensures
        r@ == corrupt_fault(message@),
{
    ActivationError::Corrupt(message.to_owned())
}

fn unstorable_error() -> (r: ActivationError)
    ensures
        r@ == unstorable(),
{
    ActivationError::Validation("millisecond value exceeds the storable range".to_owned())
}

/// Turns a number into the store's signed form.
pub fn as_i64(value: u64) -> (r: Result<i64, ActivationError>)
    ensures
        match r {
            Ok(n) => storable(value) && n == value,
            Err(e) => !storable(value) && e@ == unstorable(),
        },
{
    if value <= i64::MAX as u64 {
        Ok(value as i64)
    } else {
        Err(unstorable_error())
    }
}

fn is_negative(n: Option<i64>) -> (r: bool)
    ensures
        r == below_zero(n),
{
    match n {
        Some(v) => v < 0,
        None => false,
    }
}

fn to_unsigned(n: Option<i64>) -> (r: Option<u64>)
    requires
        !below_zero(n),
    ensures
        r == unsigned(n),
{
    match n {
        Some(v) => Some(v as u64),
        None => None,
    }
}

fn to_signed(n: Option<u64>) -> (r: Option<i64>)
    requires
        storable_option(n),
    ensures
        !below_zero(r),
        unsigned(r) == n,
{
    match n {
        Some(v) => Some(v as i64),
        None => None,
    }
}

/// Checks a stored item.
pub fn validate_item(item: &StoredItem) -> (r: Result<(), ActivationError>)
    ensures
        fault(r) == item_fault(item@),
{
    if item.payload.len() > MAX_ACTIVATION_PAYLOAD_BYTES {
        return Err(corrupt("stored payload exceeds the published bound"));
    }
    match ActivationItemId::new(item.item_id.as_str()) {
        Ok(_) => {},
        Err(e) => {
            return Err(ActivationError::Corrupt(e.describe()));
        },
    }
    if let Some(lease) = &item.lease {
        match ActivationWorkerId::new(lease.worker_id.as_str()) {
            Ok(_) => {},
            Err(e) => {
                return Err(ActivationError::Corrupt(e.describe()));
            },
        }
        if lease.token.get() > item.fencing_token {
            return Err(corrupt("stored lease outruns the item's fencing token"));
        }
    }
    if let Some(token) = item.settled_token {
        if token > item.fencing_token {
            return Err(corrupt("stored settlement outruns the item's fencing token"));
        }
    }
    if item.due_at_ms.is_some() && item.settled_at_ms.is_some() {
        return Err(corrupt("stored item is both due and settled"));
    }
    Ok(())
}

/// Reads an item from a row. Every column is checked before it is trusted.
pub fn decode(row: ActivationRow) -> (r: Result<StoredItem, ActivationError>)
    ensures
        match r {
            Ok(item) => row_fault(row@) is None && item@ == row@.item() && item_ok(item@),
            Err(e) => row_fault(row@) == Some(e@),
        },
{
    if row.attempt < 0 || row.fencing_token < 0 || is_negative(row.due_at_ms) || is_negative(
        row.lease_token,
    ) || is_negative(row.lease_expires_at_ms) || is_negative(row.settled_at_ms) || is_negative(
        row.settled_token,
    ) {
        return Err(corrupt("stored activation row holds a negative counter"));
    }
    if row.payload_size < 0 || row.payload_size as u64 != row.payload.len() as u64 {
        return Err(corrupt("stored payload does not match its declared size"));
    }
    let lease = match (row.lease_worker, row.lease_token, row.lease_expires_at_ms) {
        (Some(worker), Some(token), Some(expires)) => Some(
            ActivationLeaseState {
                worker_id: ActivationWorkerId(worker),
                token: ActivationFencingToken::new(token as u64),
                expires_at_ms: expires as u64,
            },
        ),
        _ => None,
    };
    let item = StoredItem {
        item_id: ActivationItemId(row.item_id),
        due_at_ms: to_unsigned(row.due_at_ms),
        payload: row.payload,
        attempt: row.attempt as u64,
        fencing_token: row.fencing_token as u64,
        lease,
        settled_at_ms: to_unsigned(row.settled_at_ms),
        settled_token: to_unsigned(row.settled_token),
    };
    validate_item(&item)?;
    Ok(item)
}

/// The item after a wake, or why it is refused.
pub open spec fn wake_effect(item: Option<ItemView>, wake: WakeView, now_ms: u64) -> Result<
    (ActivationWakeOutcome, ItemView),
    ActivationFault,
> {
    match item {
        None => if !storable(wake.due_at_ms) {
            Err(unstorable())
        } else {
            Ok(
                (
                    ActivationWakeOutcome::Registered,
                    ItemView {
                        item_id: wake.item_id,
                        due_at_ms: Some(wake.due_at_ms),
                        payload: wake.payload,
                        attempt: 0,
                        fencing_token: 0,
                        lease: None,
                        settled_at_ms: None,
                        settled_token: None,
                    },
                ),
            )
        },
        Some(i) => if held(i, now_ms) {
            Ok((ActivationWakeOutcome::Held, i))
        } else if i.due_at_ms == Some(wake.due_at_ms) && i.payload == wake.payload {
            Ok((ActivationWakeOutcome::Unchanged, i))
        } else if !storable(wake.due_at_ms) {
            Err(unstorable())
        } else {
            Ok(
                (
                    ActivationWakeOutcome::Rescheduled,
                    ItemView {
                        due_at_ms: Some(wake.due_at_ms),
                        payload: wake.payload,
                        settled_at_ms: None,
                        ..i
                    },
                ),
            )
        },
    }
}

/// Whether a live lease is recorded at an instant.
pub open spec fn held(item: ItemView, now_ms: u64) -> bool {
    item.lease matches Some(lease) && lease.expires_at_ms > now_ms
}

/// Whether a fence is the one being honoured at an instant.
pub open spec fn honoured(item: ItemView, handle: HandleView, now_ms: u64) -> bool {
    held(item, now_ms) && item.lease->0.worker_id == handle.worker_id && item.lease->0.token
        == handle.token
}

/// The grant of an item and the item after it, or why it is refused.
pub open spec fn grant_effect(item: ItemView, request: RequestView) -> Result<
    (GrantView, ItemView),
    ActivationFault,
> {
    if item.fencing_token == u64::MAX {
        Err(corrupt_fault("fencing token overflow"@))
    } else if item.attempt == u64::MAX {
        Err(corrupt_fault("attempt counter overflow"@))
    } else if item.due_at_ms is None {
        Err(corrupt_fault("granting a work item with no due time"@))
    } else {
        let token = (item.fencing_token + 1) as u64;
        let attempt = (item.attempt + 1) as u64;
        if !storable(attempt) || !storable(token) || !storable(request.expires_at_ms()) {
            Err(unstorable())
        } else {
            Ok(
                (
                    GrantView {
                        item_id: item.item_id,
                        worker_id: request.worker_id,
                        token,
                        due_at_ms: item.due_at_ms->0,
                        expires_at_ms: request.expires_at_ms(),
                        attempt,
                        payload: item.payload,
                    },
                    ItemView {
                        attempt,
                        fencing_token: token,
                        lease: Some(
                            LeaseView {
                                worker_id: request.worker_id,
                                token,
                                expires_at_ms: request.expires_at_ms(),
                            },
                        ),
                        settled_at_ms: None,
                        ..item
                    },
                ),
            )
        }
    }
}

/// The answer to a claim of an item and the item after it, or why it is refused.
pub open spec fn claim_effect(item: ItemView, request: RequestView) -> Result<
    (ClaimView, ItemView),
    ActivationFault,
> {
    if held(item, request.now_ms) {
        Ok(
            (
                ClaimView::Held {
                    worker_id: item.lease->0.worker_id,
                    expires_at_ms: item.lease->0.expires_at_ms,
                },
                item,
            ),
        )
    } else {
        match item.due_at_ms {
            None => Ok((ClaimView::Settled, item)),
            Some(due) => if due > request.now_ms {
                Ok((ClaimView::NotDue { due_at_ms: due }, item))
            } else {
                match grant_effect(item, request) {
                    Ok((grant, after)) => Ok((ClaimView::Granted(grant), after)),
                    Err(e) => Err(e),
                }
            },
        }
    }
}

/// The answer to a renewal and the item after it, or why it is refused.
pub open spec fn renew_effect(
    item: Option<ItemView>,
    handle: HandleView,
    lease_ms: u64,
    now_ms: u64,
) -> Result<(ActivationRenewal, Option<ItemView>), ActivationFault> {
    if lease_bound_fault(lease_ms) is Some {
        Err(lease_bound_fault(lease_ms)->0)
    } else if now_ms + lease_ms > u64::MAX {
        Err(lease_overflow())
    } else {
        let expires_at_ms = (now_ms + lease_ms) as u64;
        match item {
            Some(i) => if honoured(i, handle, now_ms) {
                if !storable(expires_at_ms) {
                    Err(unstorable())
                } else {
                    Ok(
                        (
                            ActivationRenewal::Renewed { expires_at_ms },
                            Some(
                                ItemView {
                                    lease: Some(LeaseView { expires_at_ms, ..i.lease->0 }),
                                    ..i
                                },
                            ),
                        ),
                    )
                }
            } else {
                Ok((ActivationRenewal::Fenced, item))
            },
            None => Ok((ActivationRenewal::Fenced, item)),
        }
    }
}

/// The answer to a release and the item after it, or why it is refused. A settled token is
/// looked at before the lease, since a retried release comes after its own lease is gone.
pub open spec fn release_effect(
    item: Option<ItemView>,
    handle: HandleView,
    disposition: ActivationDisposition,
    now_ms: u64,
) -> Result<(ActivationSettlement, Option<ItemView>), ActivationFault> {
    match item {
        None => Ok((ActivationSettlement::Fenced, item)),
        Some(i) => if i.settled_token == Some(handle.token) {
            Ok((ActivationSettlement::AlreadySettled, item))
        } else if !honoured(i, handle, now_ms) {
            Ok((ActivationSettlement::Fenced, item))
        } else {
            let (due_at_ms, settled_at_ms) = match disposition {
                ActivationDisposition::Complete => (None, Some(now_ms)),
                ActivationDisposition::Yield { due_at_ms } => (Some(due_at_ms), None),
            };
            if !storable_option(due_at_ms) || !storable_option(settled_at_ms) || !storable(
                handle.token,
            ) {
                Err(unstorable())
            } else {
                Ok(
                    (
                        ActivationSettlement::Settled,
                        Some(
                            ItemView {
                                due_at_ms,
                                settled_at_ms,
                                settled_token: Some(handle.token),
                                lease: None,
                                ..i
                            },
                        ),
                    ),
                )
            }
        },
    }
}

/// Whether retention may drop an item.
pub open spec fn purgeable(item: ItemView, settled_before_ms: u64) -> bool {
    &&& item.settled_at_ms matches Some(at) && at <= settled_before_ms
    &&& item.due_at_ms is None
    &&& item.lease is None
}

/// What an optional stored item says.
pub open spec fn stored_view(item: Option<&StoredItem>) -> Option<ItemView> {
    match item {
        Some(i) => Some(i@),
        None => None,
    }
}

/// A second copy of a lease.
pub fn duplicate_lease(lease: &Option<ActivationLeaseState>) -> (r: Option<ActivationLeaseState>)
    ensures
        lease_view(r) == lease_view(*lease),
{
    match lease {
        Some(l) => Some(
            ActivationLeaseState {
                worker_id: l.worker_id.duplicate(),
                token: l.token,
                expires_at_ms: l.expires_at_ms,
            },
        ),
        None => None,
    }
}

impl StoredItem {
    /// A second copy of the item.
    pub fn duplicate(&self) -> (r: StoredItem)
        ensures
            r@ == self@,
    {
        StoredItem {
            item_id: self.item_id.duplicate(),
            due_at_ms: self.due_at_ms,
            payload: copy_bytes(&self.payload),
            attempt: self.attempt,
            fencing_token: self.fencing_token,
            lease: duplicate_lease(&self.lease),
            settled_at_ms: self.settled_at_ms,
            settled_token: self.settled_token,
        }
    }

    /// What the coordinator tells of the item.
    pub fn into_state(self) -> (r: ActivationItemState)
        ensures
            r@ == self@.state(),
    {
        ActivationItemState {
            item_id: self.item_id,
            due_at_ms: self.due_at_ms,
            payload: self.payload,
            attempt: self.attempt,
            fencing_token: ActivationFencingToken::new(self.fencing_token),
            lease: self.lease,
            settled_at_ms: self.settled_at_ms,
        }
    }

    /// The live lease at an instant.
    pub fn held_by(&self, now_ms: u64) -> (r: Option<&ActivationLeaseState>)
        ensures
            match r {
                Some(lease) => held(self@, now_ms) && self@.lease == Some(lease@),
                None => !held(self@, now_ms),
            },
    {
        match &self.lease {
            Some(lease) => if lease.expires_at_ms > now_ms {
                Some(lease)
            } else {
                None
            },
            None => None,
        }
    }

    /// Whether a fence is the one being honoured.
    fn honours(&self, handle: &ActivationHandle, now_ms: u64) -> (r: bool)
        ensures
            r == honoured(self@, handle@, now_ms),
    {
        match self.held_by(now_ms) {
            Some(lease) => lease.worker_id.same(handle.worker_id()) && lease.token.get()
                == handle.token().get(),
            None => false,
        }
    }

    /// The row that stores the item.
    pub fn to_row(&self) -> (r: ActivationRow)
        requires
            item_ok(self@),
        ensures
            row_fault(r@) is None,
            r@.item() == self@,
    {
        let (lease_worker, lease_token, lease_expires_at_ms) = match &self.lease {
            Some(lease) => (
                Some(lease.worker_id.as_str().to_owned()),
                Some(lease.token.get() as i64),
                Some(lease.expires_at_ms as i64),
            ),
            None => (None, None, None),
        };
        let row = ActivationRow {
            item_id: self.item_id.as_str().to_owned(),
            due_at_ms: to_signed(self.due_at_ms),
            payload: copy_bytes(&self.payload),
            payload_size: self.payload.len() as i64,
            attempt: self.attempt as i64,
            fencing_token: self.fencing_token as i64,
            lease_worker,
            lease_token,
            lease_expires_at_ms,
            settled_at_ms: to_signed(self.settled_at_ms),
            settled_token: to_signed(self.settled_token),
        };
        proof {
            assert(row@.item() == self@);
        }
        row
    }
}

impl ItemView {
    /// What the coordinator tells of the item.
    pub open spec fn state(self) -> ItemStateView {
        ItemStateView {
            item_id: self.item_id,
            due_at_ms: self.due_at_ms,
            payload: self.payload,
            attempt: self.attempt,
            fencing_token: self.fencing_token,
            lease: self.lease,
            settled_at_ms: self.settled_at_ms,
        }
    }
}

/// Wakes one item.
pub fn wake_item(item: Option<&StoredItem>, wake: &ActivationWake, now_ms: u64) -> (r: Result<
    (ActivationWakeOutcome, StoredItem),
    ActivationError,
>)
    ensures
        match wake_effect(stored_view(item), wake@, now_ms) {
            Ok((outcome, after)) => r matches Ok((o, i)) && o == outcome && i@ == after,
            Err(e) => fault(r) == Some(e),
        },
{
    match item {
        None => {
            let _ = as_i64(wake.due_at_ms())?;
            Ok(
                (
                    ActivationWakeOutcome::Registered,
                    StoredItem {
                        item_id: wake.item_id().duplicate(),
                        due_at_ms: Some(wake.due_at_ms()),
                        payload: copy_bytes(wake.payload()),
                        attempt: 0,
                        fencing_token: 0,
                        lease: None,
                        settled_at_ms: None,
                        settled_token: None,
                    },
                ),
            )
        },
        Some(i) => {
            if i.held_by(now_ms).is_some() {
                return Ok((ActivationWakeOutcome::Held, i.duplicate()));
            }
            let same_due = match i.due_at_ms {
                Some(due) => due == wake.due_at_ms(),
                None => false,
            };
            if same_due && same_bytes(&i.payload, wake.payload()) {
                return Ok((ActivationWakeOutcome::Unchanged, i.duplicate()));
            }
            let _ = as_i64(wake.due_at_ms())?;
            Ok(
                (
                    ActivationWakeOutcome::Rescheduled,
                    StoredItem {
                        due_at_ms: Some(wake.due_at_ms()),
                        payload: copy_bytes(wake.payload()),
                        settled_at_ms: None,
                        ..i.duplicate()
                    },
                ),
            )
        },
    }
}

/// Grants one item.
pub fn grant(item: &StoredItem, request: &ActivationClaimRequest) -> (r: Result<
    (ActivationGrant, StoredItem),
    ActivationError,
>)
    ensures
        match grant_effect(item@, request@) {
            Ok((given, after)) => r matches Ok((g, i)) && g@ == given && i@ == after,
            Err(e) => fault(r) == Some(e),
        },
{
    if item.fencing_token == u64::MAX {
        return Err(corrupt("fencing token overflow"));
    }
    if item.attempt == u64::MAX {
        return Err(corrupt("attempt counter overflow"));
    }
    let token: u64 = item.fencing_token + 1;
    let attempt: u64 = item.attempt + 1;
    let expires_at_ms: u64 = request.expires_at_ms();
    let due_at_ms: u64 = match item.due_at_ms {
        Some(due) => due,
        None => {
            return Err(corrupt("granting a work item with no due time"));
        },
    };
    let _ = as_i64(attempt)?;
    let _ = as_i64(token)?;
    let _ = as_i64(expires_at_ms)?;
    let given = ActivationGrant::new(
        item.item_id.duplicate(),
        request.worker_id().duplicate(),
        ActivationFencingToken::new(token),
        due_at_ms,
        expires_at_ms,
        attempt,
        copy_bytes(&item.payload),
    );
    let after = StoredItem {
        attempt,
        fencing_token: token,
        lease: Some(
            ActivationLeaseState {
                worker_id: request.worker_id().duplicate(),
                token: ActivationFencingToken::new(token),
                expires_at_ms,
            },
        ),
        settled_at_ms: None,
        ..item.duplicate()
    };
    Ok((given, after))
}

/// Claims one item.
pub fn claim_item(item: &StoredItem, request: &ActivationClaimRequest) -> (r: Result<
    (ActivationClaim, StoredItem),
    ActivationError,
>)
    ensures
        match claim_effect(item@, request@) {
            Ok((answer, after)) => r matches Ok((c, i)) && c@ == answer && i@ == after,
            Err(e) => fault(r) == Some(e),
        },
{
    if let Some(lease) = item.held_by(request.now_ms()) {
        return Ok(
            (
                ActivationClaim::Held {
                    worker_id: lease.worker_id.duplicate(),
                    expires_at_ms: lease.expires_at_ms,
                },
                item.duplicate(),
            ),
        );
    }
    match item.due_at_ms {
        None => Ok((ActivationClaim::Settled, item.duplicate())),
        Some(due) => {
            if due > request.now_ms() {
                return Ok((ActivationClaim::NotDue { due_at_ms: due }, item.duplicate()));
            }
            let (given, after) = grant(item, request)?;
            Ok((ActivationClaim::Granted(given), after))
        },
    }
}

/// Renews a lease. The item is given back where it changed.
pub fn renew_item(
    item: Option<&StoredItem>,
    handle: &ActivationHandle,
    lease_ms: u64,
    now_ms: u64,
) -> (r: Result<(ActivationRenewal, Option<StoredItem>), ActivationError>)
    ensures
        match renew_effect(stored_view(item), handle@, lease_ms, now_ms) {
            Ok((answer, after)) => r matches Ok((a, changed)) && a == answer && (match changed {
                Some(i) => after == Some(i@) && answer is Renewed,
                None => after == stored_view(item) && answer is Fenced,
            }),
            Err(e) => fault(r) == Some(e),
        },
{
    validate_lease(lease_ms)?;
    if now_ms > u64::MAX - lease_ms {
        return Err(lease_overflow_error());
    }
    let expires_at_ms: u64 = now_ms + lease_ms;
    match item {
        Some(i) => {
            if !i.honours(handle, now_ms) {
                return Ok((ActivationRenewal::Fenced, None));
            }
            let _ = as_i64(expires_at_ms)?;
            let copy = i.duplicate();
            let lease = match copy.lease {
                Some(l) => Some(
                    ActivationLeaseState {
                        worker_id: l.worker_id,
                        token: l.token,
                        expires_at_ms,
                    },
                ),
                None => None,
            };
            let after = StoredItem {
                item_id: copy.item_id,
                due_at_ms: copy.due_at_ms,
                payload: copy.payload,
                attempt: copy.attempt,
                fencing_token: copy.fencing_token,
                lease,
                settled_at_ms: copy.settled_at_ms,
                settled_token: copy.settled_token,
            };
            Ok((ActivationRenewal::Renewed { expires_at_ms }, Some(after)))
        },
        None => Ok((ActivationRenewal::Fenced, None)),
    }
}

/// Releases an item. The item is given back where it changed.
pub fn release_item(
    item: Option<&StoredItem>,
    handle: &ActivationHandle,
    disposition: ActivationDisposition,
    now_ms: u64,
) -> (r: Result<(ActivationSettlement, Option<StoredItem>), ActivationError>)
    ensures
        match release_effect(stored_view(item), handle@, disposition, now_ms) {
            Ok((answer, after)) => r matches Ok((a, changed)) && a == answer && (match changed {
                Some(i) => after == Some(i@) && answer is Settled,
                None => after == stored_view(item) && !(answer is Settled),
            }),
            Err(e) => fault(r) == Some(e),
        },
{
    let i = match item {
        Some(i) => i,
        None => {
            return Ok((ActivationSettlement::Fenced, None));
        },
    };
    if let Some(token) = i.settled_token {
        if token == handle.token().get() {
            return Ok((ActivationSettlement::AlreadySettled, None));
        }
    }
    if !i.honours(handle, now_ms) {
        return Ok((ActivationSettlement::Fenced, None));
    }
    let (due_at_ms, settled_at_ms): (Option<u64>, Option<u64>) = match disposition {
        ActivationDisposition::Complete => (None, Some(now_ms)),
        ActivationDisposition::Yield { due_at_ms } => (Some(due_at_ms), None),
    };
    if let Some(due) = due_at_ms {
        let _ = as_i64(due)?;
    }
    if let Some(at) = settled_at_ms {
        let _ = as_i64(at)?;
    }
    let _ = as_i64(handle.token().get())?;
    let after = StoredItem {
        due_at_ms,
        settled_at_ms,
        settled_token: Some(handle.token().get()),
        lease: None,
        ..i.duplicate()
    };
    Ok((ActivationSettlement::Settled, Some(after)))
}

/// Whether retention may drop an item.
pub fn may_purge(item: &StoredItem, settled_before_ms: u64) -> (r: bool)
    ensures
        r == purgeable(item@, settled_before_ms),
{
    let settled = match item.settled_at_ms {
        Some(at) => at <= settled_before_ms,
        None => false,
    };
    settled && item.due_at_ms.is_none() && item.lease.is_none()
}

} // verus!
