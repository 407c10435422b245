//! The coordinator over all work items, and a book of items that keeps it in memory.

use crate::activation::item::{
    claim_effect, claim_item, grant, grant_effect, may_purge, purgeable, release_effect,
    release_item, renew_effect, renew_item, storable, unstorable, wake_effect, wake_item, as_i64,
    ItemView, StoredItem,
};
use crate::activation::{
    fault, ActivationClaim, ActivationClaimRequest, ActivationDisposition, ActivationError,
    ActivationFault, ActivationGrant, ActivationHandle, ActivationItemId, ActivationItemState,
    ActivationRenewal, ActivationSettlement, ActivationWake, ActivationWakeOutcome, ClaimView,
    GrantView, HandleView, ItemStateView, RequestView, WakeView,
};
use crate::text::{lemma_text_asymmetric, text_lt};
use crate::session_state::ConformanceOpen;
use crate::text_map::TextMap;
use vstd::prelude::*;

verus! {

/// The work items by identity.
pub type Items = Map<Seq<char>, ItemView>;

/// The item under an identity.
pub open spec fn item_at(items: Items, id: Seq<char>) -> Option<ItemView> {
    if items.dom().contains(id) {
        Some(items[id])
    } else {
        None
    }
}

/// The items with one of them replaced.
pub open spec fn with_item(items: Items, id: Seq<char>, item: Option<ItemView>) -> Items {
    match item {
        Some(i) => items.insert(id, i),
        None => items,
    }
}

/// What a wake answers, and the items after it.
pub open spec fn wake_on(items: Items, wake: WakeView, now_ms: u64) -> (
    Result<ActivationWakeOutcome, ActivationFault>,
    Items,
) {
    match wake_effect(item_at(items, wake.item_id), wake, now_ms) {
        Ok((outcome, after)) => (Ok(outcome), items.insert(wake.item_id, after)),
        Err(e) => (Err(e), items),
    }
}

/// What a claim of one item answers, and the items after it.
pub open spec fn claim_on(items: Items, id: Seq<char>, request: RequestView) -> (
    Result<ClaimView, ActivationFault>,
    Items,
) {
    match item_at(items, id) {
        None => (Ok(ClaimView::Unknown), items),
        Some(item) => match claim_effect(item, request) {
            Ok((answer, after)) => (Ok(answer), items.insert(id, after)),
            Err(e) => (Err(e), items),
        },
    }
}

/// What a renewal answers, and the items after it.
pub open spec fn renew_on(items: Items, handle: HandleView, lease_ms: u64, now_ms: u64) -> (
    Result<ActivationRenewal, ActivationFault>,
    Items,
) {
    match renew_effect(item_at(items, handle.item_id), handle, lease_ms, now_ms) {
        Ok((answer, after)) => (Ok(answer), with_item(items, handle.item_id, after)),
        Err(e) => (Err(e), items),
    }
}

/// What a release answers, and the items after it.
pub open spec fn release_on(
    items: Items,
    handle: HandleView,
    disposition: ActivationDisposition,
    now_ms: u64,
) -> (Result<ActivationSettlement, ActivationFault>, Items) {
    match release_effect(item_at(items, handle.item_id), handle, disposition, now_ms) {
        Ok((answer, after)) => (Ok(answer), with_item(items, handle.item_id, after)),
        Err(e) => (Err(e), items),
    }
}

/// The items that retention keeps.
pub open spec fn kept_on(items: Items, settled_before_ms: u64) -> Items {
    items.restrict(
        Set::new(
            |id: Seq<char>| items.dom().contains(id) && !purgeable(items[id], settled_before_ms),
        ),
    )
}

/// Whether an item is due and free at an instant.
pub open spec fn claimable(items: Items, id: Seq<char>, now_ms: u64) -> bool {
    items.dom().contains(id) && items[id].state().claimable_at(now_ms)
}

/// The order in which due work surfaces: oldest first, ties broken by identity.
pub open spec fn due_before(items: Items, a: Seq<char>, b: Seq<char>) -> bool {
    items[a].due_at_ms->0 < items[b].due_at_ms->0 || (items[a].due_at_ms->0
        == items[b].due_at_ms->0 && text_lt(a, b))
}

/// Whether `ids` lists the claimable items in due order.
pub open spec fn due_listing(items: Items, now_ms: u64, ids: Seq<Seq<char>>) -> bool {
    &&& forall|i: int, j: int|
        0 <= i < j < ids.len() ==> due_before(items, #[trigger] ids[i], #[trigger] ids[j])
    &&& forall|id: Seq<char>| ids.contains(id) <==> #[trigger] claimable(items, id, now_ms)
}

/// The claimable items in due order.
pub open spec fn due_ids(items: Items, now_ms: u64) -> Seq<Seq<char>> {
    choose|ids: Seq<Seq<char>>| due_listing(items, now_ms, ids)
}

/// The first `limit` of a list.
pub open spec fn first_n(ids: Seq<Seq<char>>, limit: usize) -> Seq<Seq<char>> {
    if ids.len() <= limit {
        ids
    } else {
        ids.take(limit as int)
    }
}

/// The grants of a list of items, and the items after them, or the first refusal.
pub open spec fn grant_all(items: Items, ids: Seq<Seq<char>>, request: RequestView) -> Result<
    (Seq<GrantView>, Items),
    ActivationFault,
>
    decreases ids.len(),
{
    if ids.len() == 0 {
        Ok((Seq::empty(), items))
    } else {
        match grant_all(items, ids.drop_last(), request) {
            Err(e) => Err(e),
            Ok((grants, after)) => match grant_effect(after[ids.last()], request) {
                Err(e) => Err(e),
                Ok((given, item)) => Ok((grants.push(given), after.insert(ids.last(), item))),
            },
        }
    }
}

/// What a sweep for due work answers, and the items after it. A refusal leaves the items as
/// they were.
pub open spec fn sweep_on(items: Items, request: RequestView) -> (
    Result<Seq<GrantView>, ActivationFault>,
    Items,
) {
    if !storable(request.now_ms) {
        (Err(unstorable()), items)
    } else {
        match grant_all(items, first_n(due_ids(items, request.now_ms), request.limit), request) {
            Ok((grants, after)) => (Ok(grants), after),
            Err(e) => (Err(e), items),
        }
    }
}

/// The answer inside a result, with its fault.
pub open spec fn answered<T>(r: Result<T, ActivationError>) -> Result<T, ActivationFault> {
    match r {
        Ok(t) => Ok(t),
        Err(e) => Err(e@),
    }
}

/// A claim's answer, with its fault.
pub open spec fn claim_answer(r: Result<ActivationClaim, ActivationError>) -> Result<
    ClaimView,
    ActivationFault,
> {
    match r {
        Ok(c) => Ok(c@),
        Err(e) => Err(e@),
    }
}

/// What each grant says.
pub open spec fn grant_views(grants: Seq<ActivationGrant>) -> Seq<GrantView> {
    Seq::new(grants.len(), |i: int| grants[i]@)
}

/// A sweep's answer, with its fault.
pub open spec fn sweep_answer(r: Result<Vec<ActivationGrant>, ActivationError>) -> Result<
    Seq<GrantView>,
    ActivationFault,
> {
    match r {
        Ok(grants) => Ok(grant_views(grants@)),
        Err(e) => Err(e@),
    }
}

/// What an optional state says.
pub open spec fn state_option(s: Option<ActivationItemState>) -> Option<ItemStateView> {
    match s {
        Some(state) => Some(state@),
        None => None,
    }
}

/// What the coordinator tells of the item under an identity.
pub open spec fn inspect_on(items: Items, id: Seq<char>) -> Option<ItemStateView> {
    match item_at(items, id) {
        Some(item) => Some(item.state()),
        None => None,
    }
}

/// One thing that was asked of an authority, with its answer. Opening a handle, going on through
/// another one and giving all of them up are asked by a suite alone.
pub enum ActivationCall {
    Open(ConformanceOpen, Result<(), ActivationFault>),
    Through(ConformanceOpen),
    GiveUp,
    Wake(WakeView, u64, Result<ActivationWakeOutcome, ActivationFault>),
    ClaimDue(RequestView, Result<Seq<GrantView>, ActivationFault>),
    ClaimItem(Seq<char>, RequestView, Result<ClaimView, ActivationFault>),
    Renew(HandleView, u64, u64, Result<ActivationRenewal, ActivationFault>),
    Release(
        HandleView,
        ActivationDisposition,
        u64,
        Result<ActivationSettlement, ActivationFault>,
    ),
    Inspect(Seq<char>, Result<Option<ItemStateView>, ActivationFault>),
    Purge(u64, Result<usize, ActivationFault>),
}

/// The answer of an inspection, with its fault.
pub open spec fn inspect_answer(
    r: Result<Option<ActivationItemState>, ActivationError>,
) -> Result<Option<ItemStateView>, ActivationFault> {
    match r {
        Ok(state) => Ok(state_option(state)),
        Err(e) => Err(e@),
    }
}

/// The authority over which work is due and who may execute it. Every method takes the caller's
/// instant. An implementation that is `lawful` keeps `items`, finitely many, and answers from
/// them alone; of any other nothing is promised but that `calls` tells what it was asked and what
/// it answered.
pub trait ActivationCoordinator: Sized {
    /// Whether the implementation keeps the contract. One that does not say is not taken to.
    open spec fn lawful(&self) -> bool {
        false
    }

    /// The items that it keeps.
    open spec fn items(&self) -> Items {
        Map::empty()
    }

    /// What it was asked and what it answered, in order. It is a history and nothing that is
    /// stored; an implementation that is itself verified keeps it as ghost state.
    open spec fn calls(&self) -> Seq<ActivationCall> {
        Seq::empty()
    }

    /// Registers or reschedules one work item.
    fn wake(&mut self, request: &ActivationWake, now_ms: u64) -> (r: Result<
        ActivationWakeOutcome,
        ActivationError,
    >)
        ensures
            final(self).calls() == old(self).calls().push(
                ActivationCall::Wake(request@, now_ms, answered(r)),
            ),
            old(self).lawful() ==> final(self).items().dom().finite(),
            old(self).lawful() ==> final(self).lawful() && (answered(r), final(self).items())
                == wake_on(old(self).items(), request@, now_ms),
    ;

    /// Takes up to `limit` due work items, oldest first, ties broken by identity.
    fn claim_due(&mut self, request: &ActivationClaimRequest) -> (r: Result<
        Vec<ActivationGrant>,
        ActivationError,
    >)
        ensures
            final(self).calls() == old(self).calls().push(
                ActivationCall::ClaimDue(request@, sweep_answer(r)),
            ),
            old(self).lawful() ==> final(self).items().dom().finite(),
            old(self).lawful() ==> final(self).lawful() && (sweep_answer(r), final(self).items())
                == sweep_on(old(self).items(), request@),
    ;

    /// Claims one named work item.
    fn claim_item(&mut self, item_id: &ActivationItemId, request: &ActivationClaimRequest) -> (r:
        Result<ActivationClaim, ActivationError>)
        ensures
            final(self).calls() == old(self).calls().push(
                ActivationCall::ClaimItem(item_id@, request@, claim_answer(r)),
            ),
            old(self).lawful() ==> final(self).items().dom().finite(),
            old(self).lawful() ==> final(self).lawful() && (claim_answer(r), final(self).items())
                == claim_on(old(self).items(), item_id@, request@),
    ;

    /// Extends a held lease by `lease_ms` from `now_ms`.
    fn renew(&mut self, handle: &ActivationHandle, lease_ms: u64, now_ms: u64) -> (r: Result<
        ActivationRenewal,
        ActivationError,
    >)
        ensures
            final(self).calls() == old(self).calls().push(
                ActivationCall::Renew(handle@, lease_ms, now_ms, answered(r)),
            ),
            old(self).lawful() ==> final(self).items().dom().finite(),
            old(self).lawful() ==> final(self).lawful() && (answered(r), final(self).items())
                == renew_on(old(self).items(), handle@, lease_ms, now_ms),
    ;

    /// Records the outcome and gives the item back.
    fn release(
        &mut self,
        handle: &ActivationHandle,
        disposition: ActivationDisposition,
        now_ms: u64,
    ) -> (r: Result<ActivationSettlement, ActivationError>)
        ensures
            final(self).calls() == old(self).calls().push(
                ActivationCall::Release(handle@, disposition, now_ms, answered(r)),
            ),
            old(self).lawful() ==> final(self).items().dom().finite(),
            old(self).lawful() ==> final(self).lawful() && (answered(r), final(self).items())
                == release_on(old(self).items(), handle@, disposition, now_ms),
    ;

    fn inspect(&mut self, item_id: &ActivationItemId) -> (r: Result<
        Option<ActivationItemState>,
        ActivationError,
    >)
        ensures
            final(self).calls() == old(self).calls().push(
                ActivationCall::Inspect(item_id@, inspect_answer(r)),
            ),
            old(self).lawful() ==> final(self).items().dom().finite(),
            old(self).lawful() ==> {
                &&& final(self).lawful()
                &&& final(self).items() == old(self).items()
                &&& r matches Ok(state) && state_option(state) == inspect_on(
                    old(self).items(),
                    item_id@,
                )
            },
    ;

    /// Drops items completed at or before `settled_before_ms` and tells how many.
    fn purge_settled(&mut self, settled_before_ms: u64) -> (r: Result<usize, ActivationError>)
        ensures
            final(self).calls() == old(self).calls().push(
                ActivationCall::Purge(settled_before_ms, answered(r)),
            ),
            old(self).lawful() ==> final(self).items().dom().finite(),
            old(self).lawful() ==> {
                &&& final(self).lawful()
                &&& !storable(settled_before_ms) ==> fault(r) == Some(unstorable())
                    && final(self).items() == old(self).items()
                &&& storable(settled_before_ms) ==> {
                    &&& final(self).items() == kept_on(old(self).items(), settled_before_ms)
                    &&& r matches Ok(n) && n + final(self).items().dom().len() == old(
                        self,
                    ).items().dom().len()
                }
            },
    ;
}

/// The stored items by identity.
struct ItemShelf {
    entries: TextMap<StoredItem>,
}

/// What the items of a map say.
pub open spec fn item_views(m: Map<Seq<char>, StoredItem>) -> Items {
    m.map_values(|i: StoredItem| i@)
}

impl View for ItemShelf {
    type V = Items;

    closed spec fn view(&self) -> Items {
        item_views(self.entries@)
    }
}

/// A due item in a sweep.
struct DueItem {
    id: String,
    due_at_ms: u64,
}

/// The identities of a sweep.
spec fn due_views(due: Seq<DueItem>) -> Seq<Seq<char>> {
    Seq::new(due.len(), |i: int| due[i].id@)
}

/// Whether a text is one of the first `n` keys.
spec fn among(keys: Seq<Seq<char>>, id: Seq<char>, n: int) -> bool {
    exists|k: int| 0 <= k < n && keys[k] == id
}

/// Whether everything in `out` is claimable and among the first `n` keys.
#[verifier::opaque]
spec fn swept_only(
    items: Items,
    keys: Seq<Seq<char>>,
    now_ms: u64,
    out: Seq<DueItem>,
    n: int,
) -> bool {
    forall|j: int|
        0 <= j < out.len() ==> {
            &&& claimable(items, (#[trigger] out[j]).id@, now_ms)
            &&& items[out[j].id@].due_at_ms == Some(out[j].due_at_ms)
            &&& among(keys, out[j].id@, n)
        }
}

/// Whether `out` holds every claimable item among the first `n` keys.
#[verifier::opaque]
spec fn swept_all(
    items: Items,
    keys: Seq<Seq<char>>,
    now_ms: u64,
    out: Seq<DueItem>,
    n: int,
) -> bool {
    forall|k: int|
        0 <= k < n && claimable(items, #[trigger] keys[k], now_ms) ==> due_views(out).contains(
            keys[k],
        )
}

/// Whether `out` is in due order.
#[verifier::opaque]
spec fn swept_sorted(items: Items, out: Seq<DueItem>) -> bool {
    forall|a: int, b: int|
        0 <= a < b < out.len() ==> due_before(
            items,
            (#[trigger] out[a]).id@,
            (#[trigger] out[b]).id@,
        )
}

/// Whether `out` holds the claimable items among the first `n` keys, in due order.
spec fn swept(
    items: Items,
    keys: Seq<Seq<char>>,
    now_ms: u64,
    out: Seq<DueItem>,
    n: int,
) -> bool {
    &&& swept_only(items, keys, now_ms, out, n)
    &&& swept_all(items, keys, now_ms, out, n)
    &&& swept_sorted(items, out)
}

/// Puts an item behind all that are not due later.
fn insert_due(out: &mut Vec<DueItem>, made: DueItem) -> (p: usize)
    ensures
        p <= old(out)@.len(),
        final(out)@ == old(out)@.insert(p as int, made),
        forall|j: int| 0 <= j < p ==> (#[trigger] old(out)@[j]).due_at_ms <= made.due_at_ms,
        p < old(out)@.len() ==> old(out)@[p as int].due_at_ms > made.due_at_ms,
{
    let mut p: usize = 0;
    while p < out.len() && out[p].due_at_ms <= made.due_at_ms
        invariant
            p <= out@.len(),
            out@ == old(out)@,
            forall|j: int| 0 <= j < p ==> (#[trigger] out@[j]).due_at_ms <= made.due_at_ms,
        decreases out@.len() - p,
    {
        p += 1;
    }
    out.insert(p, made);
    p
}

proof fn lemma_skip_due(
    items: Items,
    keys: Seq<Seq<char>>,
    now_ms: u64,
    out: Seq<DueItem>,
    n: int,
)
    requires
        swept(items, keys, now_ms, out, n),
        0 <= n < keys.len(),
        !claimable(items, keys[n], now_ms),
    ensures
        swept(items, keys, now_ms, out, n + 1),
{
    assert(swept_only(items, keys, now_ms, out, n + 1)) by {
        reveal(swept_only);
        assert forall|j: int| 0 <= j < out.len() implies among(keys, (#[trigger] out[j]).id@, n
            + 1) by {
            let k = choose|k: int| 0 <= k < n && keys[k] == out[j].id@;
            assert(0 <= k < n + 1 && keys[k] == out[j].id@);
        }
    }
    assert(swept_all(items, keys, now_ms, out, n + 1)) by {
        reveal(swept_all);
    }
}

proof fn lemma_insert_due(
    items: Items,
    keys: Seq<Seq<char>>,
    now_ms: u64,
    before: Seq<DueItem>,
    made: DueItem,
    p: int,
    n: int,
)
    requires
        swept(items, keys, now_ms, before, n),
        crate::text_map::keys_sorted(keys),
        0 <= n < keys.len(),
        made.id@ == keys[n],
        claimable(items, keys[n], now_ms),
        items[keys[n]].due_at_ms == Some(made.due_at_ms),
        0 <= p <= before.len(),
        forall|j: int| 0 <= j < p ==> (#[trigger] before[j]).due_at_ms <= made.due_at_ms,
        p < before.len() ==> before[p].due_at_ms > made.due_at_ms,
    ensures
        swept(items, keys, now_ms, before.insert(p, made), n + 1),
{
    let out = before.insert(p, made);
    assert(swept_only(items, keys, now_ms, out, n + 1)) by {
        reveal(swept_only);
        assert forall|j: int| 0 <= j < out.len() implies {
            &&& claimable(items, (#[trigger] out[j]).id@, now_ms)
            &&& items[out[j].id@].due_at_ms == Some(out[j].due_at_ms)
            &&& among(keys, out[j].id@, n + 1)
        } by {
            if j == p {
                assert(keys[n] == out[j].id@);
            } else {
                let b = if j < p { j } else { j - 1 };
                assert(out[j] == before[b]);
                let k = choose|k: int| 0 <= k < n && keys[k] == before[b].id@;
                assert(0 <= k < n + 1 && keys[k] == out[j].id@);
            }
        }
    }
    assert(swept_all(items, keys, now_ms, out, n + 1)) by {
        reveal(swept_all);
        let ids = due_views(out);
        let was = due_views(before);
        assert forall|k: int|
            0 <= k < n + 1 && claimable(
                items,
                #[trigger] keys[k],
                now_ms,
            ) implies ids.contains(keys[k]) by {
            if k == n {
                assert(ids[p] == keys[k]);
            } else {
                assert(was.contains(keys[k]));
                let j = choose|j: int| 0 <= j < was.len() && was[j] == keys[k];
                let o = if j < p { j } else { j + 1 };
                assert(out[o] == before[j]);
                assert(ids[o] == keys[k]);
            }
        }
    }
    lemma_insert_due_sorted(items, keys, now_ms, before, made, p, n);
}

proof fn lemma_insert_due_sorted(
    items: Items,
    keys: Seq<Seq<char>>,
    now_ms: u64,
    before: Seq<DueItem>,
    made: DueItem,
    p: int,
    n: int,
)
    requires
        swept_only(items, keys, now_ms, before, n),
        swept_sorted(items, before),
        crate::text_map::keys_sorted(keys),
        0 <= n < keys.len(),
        made.id@ == keys[n],
        items[keys[n]].due_at_ms == Some(made.due_at_ms),
        0 <= p <= before.len(),
        forall|j: int| 0 <= j < p ==> (#[trigger] before[j]).due_at_ms <= made.due_at_ms,
        p < before.len() ==> before[p].due_at_ms > made.due_at_ms,
    ensures
        swept_sorted(items, before.insert(p, made)),
{
    let out = before.insert(p, made);
    assert forall|j: int| 0 <= j < before.len() implies text_lt((#[trigger] before[j]).id@, made.id@)
        && items[before[j].id@].due_at_ms == Some(before[j].due_at_ms) by {
        reveal(swept_only);
        let k = choose|k: int| 0 <= k < n && keys[k] == before[j].id@;
        assert(text_lt(keys[k], keys[n]));
    }
    assert forall|j: int| p <= j < before.len() implies (#[trigger] before[j]).due_at_ms
        > made.due_at_ms by {
        reveal(swept_sorted);
        if j > p {
            assert(due_before(items, before[p].id@, before[j].id@));
        }
    }
    reveal(swept_sorted);
    assert forall|a: int, b: int| 0 <= a < b < out.len() implies due_before(
        items,
        (#[trigger] out[a]).id@,
        (#[trigger] out[b]).id@,
    ) by {
        if a == p {
            assert(out[b] == before[b - 1]);
        } else if b == p {
            assert(out[a] == before[a]);
        } else {
            let x = if a < p { a } else { a - 1 };
            let y = if b < p { b } else { b - 1 };
            assert(out[a] == before[x]);
            assert(out[b] == before[y]);
            assert(due_before(items, before[x].id@, before[y].id@));
        }
    }
}

/// A list of items has one order in which it is due.
pub proof fn lemma_due_listing_unique(
    items: Items,
    now_ms: u64,
    a: Seq<Seq<char>>,
    b: Seq<Seq<char>>,
)
    requires
        due_listing(items, now_ms, a),
        due_listing(items, now_ms, b),
    ensures
        a == b,
{
    lemma_due_prefix(items, now_ms, a, b, a.len() as int);
    lemma_due_prefix(items, now_ms, b, a, b.len() as int);
    if a.len() < b.len() {
        let n = a.len() as int;
        assert(b.contains(b[n]));
        assert(claimable(items, b[n], now_ms));
        assert(a.contains(b[n]));
        let k = choose|k: int| 0 <= k < a.len() && a[k] == b[n];
        assert(a[k] == b[k]);
        lemma_due_asymmetric(items, b[k], b[n]);
    }
    if b.len() < a.len() {
        let n = b.len() as int;
        assert(a.contains(a[n]));
        assert(claimable(items, a[n], now_ms));
        assert(b.contains(a[n]));
        let k = choose|k: int| 0 <= k < b.len() && b[k] == a[n];
        assert(a[k] == b[k]);
        lemma_due_asymmetric(items, a[k], a[n]);
    }
    assert(a =~= b);
}

proof fn lemma_due_asymmetric(items: Items, a: Seq<char>, b: Seq<char>)
    requires
        due_before(items, a, b),
    ensures
        !due_before(items, b, a),
        a != b,
{
    if text_lt(a, b) {
        lemma_text_asymmetric(a, b);
    }
}

proof fn lemma_due_prefix(
    items: Items,
    now_ms: u64,
    a: Seq<Seq<char>>,
    b: Seq<Seq<char>>,
    n: int,
)
    requires
        due_listing(items, now_ms, a),
        due_listing(items, now_ms, b),
        0 <= n <= a.len(),
    ensures
        n <= b.len(),
        forall|i: int| 0 <= i < n ==> #[trigger] a[i] == b[i],
    decreases n,
{
    if n > 0 {
        lemma_due_prefix(items, now_ms, a, b, n - 1);
        let m = n - 1;
        assert(a.contains(a[m]));
        assert(claimable(items, a[m], now_ms));
        assert(b.contains(a[m]));
        let k = choose|k: int| 0 <= k < b.len() && b[k] == a[m];
        if k < m {
            assert(a[k] == b[k]);
            lemma_due_asymmetric(items, a[k], a[m]);
        }
        if k > m {
            assert(b.contains(b[m]));
            assert(claimable(items, b[m], now_ms));
            assert(a.contains(b[m]));
            let j = choose|j: int| 0 <= j < a.len() && a[j] == b[m];
            assert(due_before(items, b[m], b[k]));
            if j < m {
                assert(a[j] == b[j]);
                lemma_due_asymmetric(items, b[j], b[m]);
            } else if j == m {
                lemma_due_asymmetric(items, b[m], b[k]);
            } else {
                assert(due_before(items, a[m], a[j]));
                lemma_due_asymmetric(items, b[m], b[k]);
            }
        }
    }
}

/// The listing of the claimable items in due order is the one that `due_ids` names.
pub proof fn lemma_due_ids(items: Items, now_ms: u64, ids: Seq<Seq<char>>)
    requires
        due_listing(items, now_ms, ids),
    ensures
        due_ids(items, now_ms) == ids,
{
    assert(due_listing(items, now_ms, due_ids(items, now_ms)));
    lemma_due_listing_unique(items, now_ms, due_ids(items, now_ms), ids);
}

proof fn lemma_grant_all_stops(items: Items, ids: Seq<Seq<char>>, request: RequestView, n: int)
    requires
        0 <= n <= ids.len(),
        grant_all(items, ids.take(n), request) is Err,
    ensures
        grant_all(items, ids, request) == grant_all(items, ids.take(n), request),
    decreases ids.len() - n,
{
    if n == ids.len() {
        assert(ids.take(n) =~= ids);
    } else {
        assert(ids.take(n + 1).drop_last() =~= ids.take(n));
        lemma_grant_all_stops(items, ids, request, n + 1);
    }
}

proof fn lemma_grant_all_domain(items: Items, ids: Seq<Seq<char>>, request: RequestView)
    requires
        forall|i: int| 0 <= i < ids.len() ==> items.dom().contains(#[trigger] ids[i]),
    ensures
        grant_all(items, ids, request) matches Ok((grants, after)) ==> after.dom() == items.dom()
            && grants.len() == ids.len(),
    decreases ids.len(),
{
    if ids.len() > 0 {
        let head = ids.drop_last();
        assert forall|i: int| 0 <= i < head.len() implies items.dom().contains(
            #[trigger] head[i],
        ) by {
            assert(head[i] == ids[i]);
        }
        lemma_grant_all_domain(items, head, request);
        match grant_all(items, ids, request) {
            Ok((_, after)) => {
                assert(items.dom().contains(ids[ids.len() - 1]));
                assert(after.dom() =~= items.dom());
            },
            Err(_) => {},
        }
    }
}

impl ItemShelf {
    /// A shelf without items.
    fn new() -> (r: ItemShelf)
        ensures
            r@ == Items::empty(),
    {
        let r = ItemShelf { entries: TextMap::new() };
        proof {
            assert(r@ =~= Items::empty());
        }
        r
    }

    /// Only finitely many items fit.
    proof fn lemma_finite(&self)
        ensures
            self@.dom().finite(),
    {
        self.entries.lemma_finite();
        assert(self@.dom() =~= self.entries@.dom());
    }

    /// Files an item under its identity, in place of what was there.
    fn file(&mut self, item: StoredItem)
        ensures
            final(self)@ == old(self)@.insert(item@.item_id, item@),
    {
        let key = item.item_id.duplicate();
        self.entries.insert(key.as_str(), item);
        proof {
            assert(self@ =~= old(self)@.insert(item@.item_id, item@));
        }
    }

    /// The claimable items in due order.
    fn due_items(&self, now_ms: u64) -> (r: Vec<DueItem>)
        ensures
            due_listing(self@, now_ms, due_views(r@)),
    {
        let n: usize = self.entries.len();
        let ghost keys = self.entries.keys();
        let ghost items = self@;
        proof {
            assert(items.dom() =~= self.entries@.dom());
        }
        let mut out: Vec<DueItem> = Vec::new();
        let mut i: usize = 0;
        proof {
            reveal(swept_only);
            reveal(swept_all);
            reveal(swept_sorted);
        }
        while i < n
            invariant
                i <= n,
                n == keys.len(),
                keys == self.entries.keys(),
                items == item_views(self.entries@),
                items.dom() == self.entries@.dom(),
                crate::text_map::lists_in_order(keys, items.dom()),
                swept(items, keys, now_ms, out@, i as int),
            decreases n - i,
        {
            let key = self.entries.key_at(i);
            let item = self.entries.value_at(i);
            assert(items[key@] == item@);
            let due_now = match item.due_at_ms {
                Some(due) => due <= now_ms,
                None => false,
            };
            let ghost before = out@;
            if due_now && item.held_by(now_ms).is_none() {
                let due: u64 = match item.due_at_ms {
                    Some(due) => due,
                    None => 0,
                };
                assert(claimable(items, key@, now_ms));
                let made = DueItem { id: key.to_owned(), due_at_ms: due };
                let p: usize = insert_due(&mut out, made);
                proof {
                    lemma_insert_due(items, keys, now_ms, before, made, p as int, i as int);
                }
            } else {
                proof {
                    assert(!claimable(items, keys[i as int], now_ms));
                    lemma_skip_due(items, keys, now_ms, out@, i as int);
                }
            }
            i += 1;
        }
        proof {
            let ids = due_views(out@);
            assert forall|id: Seq<char>| ids.contains(id) <==> #[trigger] claimable(
                items,
                id,
                now_ms,
            ) by {
                if ids.contains(id) {
                    reveal(swept_only);
                    let j = choose|j: int| 0 <= j < ids.len() && ids[j] == id;
                    assert(out@[j].id@ == id);
                }
                if claimable(items, id, now_ms) {
                    reveal(swept_all);
                    assert(items.dom().contains(id));
                    assert(keys.contains(id));
                    let k = choose|k: int| 0 <= k < keys.len() && keys[k] == id;
                    assert(claimable(items, keys[k], now_ms));
                }
            }
            assert forall|a: int, b: int| 0 <= a < b < ids.len() implies due_before(
                items,
                #[trigger] ids[a],
                #[trigger] ids[b],
            ) by {
                reveal(swept_sorted);
                assert(ids[a] == out@[a].id@);
                assert(ids[b] == out@[b].id@);
            }
        }
        out
    }
}

impl ItemShelf {
    fn wake(&mut self, request: &ActivationWake, now_ms: u64) -> (r: Result<
        ActivationWakeOutcome,
        ActivationError,
    >)
        ensures
            (answered(r), final(self)@)
                == wake_on(old(self)@, request@, now_ms),
    {
        let ghost before = self@;
        assert(before.dom() =~= self.entries@.dom());
        let key = request.item_id().duplicate();
        match wake_item(self.entries.get(key.as_str()), request, now_ms) {
            Ok((outcome, item)) => {
                self.entries.insert(key.as_str(), item);
                proof {
                    assert(self@ =~= before.insert(request@.item_id, item@));
                }
                Ok(outcome)
            },
            Err(e) => Err(e),
        }
    }

    fn claim_due(&mut self, request: &ActivationClaimRequest) -> (r: Result<
        Vec<ActivationGrant>,
        ActivationError,
    >)
        ensures
            (sweep_answer(r), final(self)@)
                == sweep_on(old(self)@, request@),
    {
        let ghost before = self@;
        let _ = as_i64(request.now_ms())?;
        let due = self.due_items(request.now_ms());
        let ghost all = due_views(due@);
        let n: usize = if due.len() <= request.limit() {
            due.len()
        } else {
            request.limit()
        };
        let ghost ids = first_n(all, request@.limit);
        proof {
            lemma_due_ids(before, request@.now_ms, all);
            assert(ids =~= all.take(n as int));
            assert(ids.take(0) =~= Seq::empty());
            assert forall|i: int| 0 <= i < ids.len() implies before.dom().contains(
                #[trigger] ids[i],
            ) by {
                assert(all.contains(all[i]));
                assert(claimable(before, all[i], request@.now_ms));
            }
            assert forall|a: int, b: int| 0 <= a < b < ids.len() implies ids[a] != ids[b] by {
                assert(due_before(before, all[a], all[b]));
                lemma_due_asymmetric(before, all[a], all[b]);
            }
        }
        let mut grants: Vec<ActivationGrant> = Vec::new();
        let mut granted: Vec<StoredItem> = Vec::new();
        let mut i: usize = 0;
        proof {
            assert(grant_views(grants@) =~= Seq::empty());
        }
        while i < n
            invariant
                i <= n,
                n == ids.len(),
                n <= due@.len(),
                all == due_views(due@),
                ids == all.take(n as int),
                ids == first_n(due_ids(before, request@.now_ms), request@.limit),
                storable(request@.now_ms),
                before == old(self)@,
                before == self@,
                forall|k: int| 0 <= k < ids.len() ==> before.dom().contains(#[trigger] ids[k]),
                forall|a: int, b: int| 0 <= a < b < ids.len() ==> ids[a] != ids[b],
                grant_all(before, ids.take(i as int), request@) matches Ok((g, after)) && {
                    &&& g == grant_views(grants@)
                    &&& granted@.len() == i
                    &&& forall|k: int|
                        0 <= k < i ==> (#[trigger] granted@[k])@.item_id == granted@[k].item_id@
                    &&& forall|k: int| i <= k < n ==> after[#[trigger] ids[k]] == before[ids[k]]
                    &&& forall|k: int|
                        0 <= k < i ==> after[#[trigger] ids[k]] == granted@[k]@
                    &&& forall|id: Seq<char>|
                        #[trigger] before.dom().contains(id) && !ids.take(i as int).contains(id)
                            ==> after[id] == before[id]
                    &&& after.dom() == before.dom()
                },
            decreases n - i,
        {
            let key = due[i].id.as_str();
            proof {
                assert(ids[i as int] == key@);
                assert(before.dom() =~= self.entries@.dom());
                assert(ids.take(i + 1).drop_last() =~= ids.take(i as int));
                assert(ids.take(i + 1).last() == key@);
            }
            match self.entries.get(key) {
                Some(item) => {
                    assert(item@ == before[key@]);
                    match grant(item, request) {
                        Ok((given, after)) => {
                            let ghost old_grants = grant_views(grants@);
                            let ghost old_granted = granted@;
                            let ghost map = grant_all(
                                before,
                                ids.take(i as int),
                                request@,
                            )->Ok_0.1;
                            grants.push(given);
                            granted.push(after);
                            proof {
                                assert(grant_views(grants@) =~= old_grants.push(given@));
                                let now = map.insert(key@, after@);
                                assert(now.dom() =~= before.dom());
                                assert forall|k: int| i + 1 <= k < n implies now[
                                    #[trigger] ids[k]
                                ] == before[ids[k]] by {
                                    assert(ids[i as int] != ids[k]);
                                }
                                assert forall|k: int| 0 <= k < i + 1 implies now[
                                    #[trigger] ids[k]
                                ] == granted@[k]@ by {
                                    if k < i {
                                        assert(ids[k] != ids[i as int]);
                                        assert(granted@[k] == old_granted[k]);
                                    }
                                }
                                assert forall|id: Seq<char>|
                                    #[trigger] before.dom().contains(id) && !ids.take(
                                        i + 1,
                                    ).contains(id) implies now[id] == before[id] by {
                                    assert(ids.take(i + 1)[i as int] == key@);
                                    if ids.take(i as int).contains(id) {
                                        let k = choose|k: int|
                                            0 <= k < i && ids.take(i as int)[k] == id;
                                        assert(ids.take(i + 1)[k] == id);
                                    }
                                }
                            }
                        },
                        Err(e) => {
                            proof {
                                lemma_grant_all_stops(before, ids, request@, i + 1);
                            }
                            return Err(e);
                        },
                    }
                },
                None => {
                    return Ok(grants);
                },
            }
            i += 1;
        }
        let ghost outcome = grant_all(before, ids, request@);
        proof {
            assert(ids.take(n as int) =~= ids);
        }
        let mut k: usize = 0;
        let ghost after = outcome->Ok_0.1;
        while k < n
            invariant
                k <= n,
                n == ids.len(),
                n <= due@.len(),
                n == granted@.len(),
                all == due_views(due@),
                ids == all.take(n as int),
                after.dom() == before.dom(),
                forall|j: int| 0 <= j < ids.len() ==> before.dom().contains(#[trigger] ids[j]),
                forall|j: int| 0 <= j < n ==> after[#[trigger] ids[j]] == granted@[j]@,
                self@.dom() == before.dom(),
                forall|id: Seq<char>|
                    #[trigger] before.dom().contains(id) ==> self@[id] == (if ids.take(
                        k as int,
                    ).contains(id) {
                        after[id]
                    } else {
                        before[id]
                    }),
            decreases n - k,
        {
            let ghost was = self@;
            let key = due[k].id.as_str();
            assert(ids[k as int] == key@);
            let item = granted[k].duplicate();
            self.entries.insert(key, item);
            proof {
                assert(self@ =~= was.insert(key@, item@));
                assert(self@.dom() =~= before.dom());
                assert forall|id: Seq<char>| #[trigger] before.dom().contains(id) implies self@[id]
                    == (if ids.take(k + 1).contains(id) {
                    after[id]
                } else {
                    before[id]
                }) by {
                    assert(ids.take(k + 1)[k as int] == key@);
                    if id != key@ {
                        if ids.take(k + 1).contains(id) {
                            let taken = ids.take(k + 1);
                            let j = choose|j: int| 0 <= j < k + 1 && taken[j] == id;
                            assert(ids.take(k as int)[j] == id);
                        }
                        if ids.take(k as int).contains(id) {
                            let j = choose|j: int| 0 <= j < k && ids.take(k as int)[j] == id;
                            assert(ids.take(k + 1)[j] == id);
                        }
                    }
                }
            }
            k += 1;
        }
        proof {
            assert(ids.take(n as int) =~= ids);
            assert forall|id: Seq<char>| #[trigger] before.dom().contains(id) implies self@[id]
                == after[id] by {
                if !ids.contains(id) {
                    assert(after[id] == before[id]);
                }
            }
            assert(self@ =~= after);
        }
        Ok(grants)
    }

    fn claim_item(&mut self, item_id: &ActivationItemId, request: &ActivationClaimRequest) -> (r:
        Result<ActivationClaim, ActivationError>)
        ensures
            (claim_answer(r), final(self)@)
                == claim_on(old(self)@, item_id@, request@),
    {
        let ghost before = self@;
        assert(before.dom() =~= self.entries@.dom());
        let outcome = match self.entries.get(item_id.as_str()) {
            None => {
                return Ok(ActivationClaim::Unknown);
            },
            Some(item) => claim_item(item, request),
        };
        match outcome {
            Ok((answer, item)) => {
                self.entries.insert(item_id.as_str(), item);
                proof {
                    assert(self@ =~= before.insert(item_id@, item@));
                }
                Ok(answer)
            },
            Err(e) => Err(e),
        }
    }

    fn renew(&mut self, handle: &ActivationHandle, lease_ms: u64, now_ms: u64) -> (r: Result<
        ActivationRenewal,
        ActivationError,
    >)
        ensures
            (answered(r), final(self)@)
                == renew_on(old(self)@, handle@, lease_ms, now_ms),
    {
        let ghost before = self@;
        assert(before.dom() =~= self.entries@.dom());
        let key = handle.item_id().duplicate();
        match renew_item(self.entries.get(key.as_str()), handle, lease_ms, now_ms) {
            Ok((answer, changed)) => {
                if let Some(item) = changed {
                    self.entries.insert(key.as_str(), item);
                    proof {
                        assert(self@ =~= before.insert(handle@.item_id, item@));
                    }
                } else {
                    proof {
                        assert(with_item(
                            before,
                            handle@.item_id,
                            item_at(before, handle@.item_id),
                        ) =~= before);
                    }
                }
                Ok(answer)
            },
            Err(e) => Err(e),
        }
    }

    fn release(
        &mut self,
        handle: &ActivationHandle,
        disposition: ActivationDisposition,
        now_ms: u64,
    ) -> (r: Result<ActivationSettlement, ActivationError>)
        ensures
            (answered(r), final(self)@)
                == release_on(old(self)@, handle@, disposition, now_ms),
    {
        let ghost before = self@;
        assert(before.dom() =~= self.entries@.dom());
        let key = handle.item_id().duplicate();
        match release_item(self.entries.get(key.as_str()), handle, disposition, now_ms) {
            Ok((answer, changed)) => {
                if let Some(item) = changed {
                    self.entries.insert(key.as_str(), item);
                    proof {
                        assert(self@ =~= before.insert(handle@.item_id, item@));
                    }
                } else {
                    proof {
                        assert(with_item(
                            before,
                            handle@.item_id,
                            item_at(before, handle@.item_id),
                        ) =~= before);
                    }
                }
                Ok(answer)
            },
            Err(e) => Err(e),
        }
    }

    fn inspect(&mut self, item_id: &ActivationItemId) -> (r: Result<
        Option<ActivationItemState>,
        ActivationError,
    >)
        ensures
            final(self)@ == old(self)@,
            r matches Ok(state) && state_option(state) == inspect_on(old(self)@, item_id@),
    {
        assert(self@.dom() =~= self.entries@.dom());
        match self.entries.get(item_id.as_str()) {
            Some(item) => Ok(Some(item.duplicate().into_state())),
            None => Ok(None),
        }
    }

    fn purge_settled(&mut self, settled_before_ms: u64) -> (r: Result<usize, ActivationError>)
        ensures
            !storable(settled_before_ms) ==> fault(r) == Some(unstorable()) && final(self)@ == old(
                self,
            )@,
            storable(settled_before_ms) ==> {
                &&& final(self)@ == kept_on(old(self)@, settled_before_ms)
                &&& r matches Ok(n) && n + final(self)@.dom().len() == old(self)@.dom().len()
            },
    {
        let _ = as_i64(settled_before_ms)?;
        let ghost before = self@;
        let n: usize = self.entries.len();
        let ghost keys = self.entries.keys();
        proof {
            assert(before.dom() =~= self.entries@.dom());
        }
        let mut doomed: Vec<String> = Vec::new();
        let mut i: usize = 0;
        while i < n
            invariant
                i <= n,
                n == keys.len(),
                keys == self.entries.keys(),
                before == item_views(self.entries@),
                before == old(self)@,
                forall|j: int|
                    0 <= j < doomed@.len() ==> before.dom().contains((#[trigger] doomed@[j])@)
                        && purgeable(before[doomed@[j]@], settled_before_ms),
                forall|k: int|
                    0 <= k < i && purgeable(before[#[trigger] keys[k]], settled_before_ms)
                        ==> exists|j: int|
                        0 <= j < doomed@.len() && (#[trigger] doomed@[j])@ == keys[k],
            decreases n - i,
        {
            let key = self.entries.key_at(i);
            let item = self.entries.value_at(i);
            let ghost was = doomed@;
            assert(before[key@] == item@);
            assert(keys[i as int] == key@);
            if may_purge(item, settled_before_ms) {
                doomed.push(key.to_owned());
                proof {
                    assert(doomed@[was.len() as int]@ == key@);
                    assert forall|k: int|
                        0 <= k < i + 1 && purgeable(
                            before[#[trigger] keys[k]],
                            settled_before_ms,
                        ) implies exists|j: int|
                        0 <= j < doomed@.len() && (#[trigger] doomed@[j])@ == keys[k] by {
                        if k < i {
                            let j = choose|j: int|
                                0 <= j < was.len() && (#[trigger] was[j])@ == keys[k];
                            assert(doomed@[j] == was[j]);
                        }
                    }
                }
            }
            i += 1;
        }
        let mut d: usize = 0;
        while d < doomed.len()
            invariant
                d <= doomed@.len(),
                forall|j: int|
                    0 <= j < doomed@.len() ==> before.dom().contains((#[trigger] doomed@[j])@)
                        && purgeable(before[doomed@[j]@], settled_before_ms),
                forall|id: Seq<char>|
                    #[trigger] self@.dom().contains(id) <==> before.dom().contains(id)
                        && !(exists|j: int| 0 <= j < d && (#[trigger] doomed@[j])@ == id),
                forall|id: Seq<char>| #[trigger] self@.dom().contains(id) ==> self@[id]
                    == before[id],
            decreases doomed@.len() - d,
        {
            let ghost was = self@;
            let key = doomed[d].as_str();
            self.entries.remove(key);
            proof {
                assert(self@ =~= was.remove(key@));
                assert(doomed@[d as int]@ == key@);
                assert forall|id: Seq<char>| #[trigger] self@.dom().contains(id)
                    <==> before.dom().contains(id) && !(exists|j: int|
                    0 <= j < d + 1 && (#[trigger] doomed@[j])@ == id) by {
                    if self@.dom().contains(id) {
                        assert(was.dom().contains(id));
                    }
                    if before.dom().contains(id) && !(exists|j: int|
                        0 <= j < d + 1 && (#[trigger] doomed@[j])@ == id) {
                        assert(was.dom().contains(id));
                    }
                }
            }
            d += 1;
        }
        proof {
            assert(self@ =~= kept_on(before, settled_before_ms)) by {
                assert forall|id: Seq<char>| self@.dom().contains(id) <==> kept_on(
                    before,
                    settled_before_ms,
                ).dom().contains(id) by {
                    if before.dom().contains(id) && purgeable(before[id], settled_before_ms) {
                        assert(keys.contains(id));
                        let k = choose|k: int| 0 <= k < keys.len() && keys[k] == id;
                        assert(purgeable(before[keys[k]], settled_before_ms));
                        let j = choose|j: int|
                            0 <= j < doomed@.len() && (#[trigger] doomed@[j])@ == keys[k];
                        assert(doomed@[j]@ == id);
                    }
                }
            }
            assert(self@.dom() =~= self.entries@.dom());
            vstd::set_lib::lemma_len_subset(self@.dom(), before.dom());
        }
        let left: usize = self.entries.len();
        Ok(n - left)
    }
}

/// Work items kept in memory, with what was asked of them.
pub struct ActivationBook {
    shelf: ItemShelf,
    calls: Ghost<Seq<ActivationCall>>,
}

impl View for ActivationBook {
    type V = Items;

    closed spec fn view(&self) -> Items {
        self.shelf@
    }
}

impl ActivationBook {
    /// A book without items.
    pub fn new() -> (r: ActivationBook)
        ensures
            r@ == Items::empty(),
            r.calls() == Seq::<ActivationCall>::empty(),
    {
        ActivationBook { shelf: ItemShelf::new(), calls: Ghost(Seq::empty()) }
    }

    /// Files an item under its identity, in place of what was there.
    pub fn file(&mut self, item: StoredItem)
        ensures
            final(self)@ == old(self)@.insert(item@.item_id, item@),
            final(self).calls() == old(self).calls(),
    {
        self.shelf.file(item);
    }

    /// What the book was asked.
    pub closed spec fn asked(&self) -> Seq<ActivationCall> {
        self.calls@
    }

    /// Notes one thing that the book was asked.
    pub(crate) fn note(&mut self, call: Ghost<ActivationCall>)
        ensures
            final(self)@ == old(self)@,
            final(self).calls() == old(self).calls().push(call@),
    {
        self.calls = Ghost(self.calls@.push(call@));
    }

    /// Only finitely many items fit.
    pub proof fn lemma_finite(&self)
        ensures
            self@.dom().finite(),
    {
        self.shelf.lemma_finite();
    }
}

impl ActivationCoordinator for ActivationBook {
    open spec fn lawful(&self) -> bool {
        true
    }

    open spec fn items(&self) -> Items {
        self@
    }

    open spec fn calls(&self) -> Seq<ActivationCall> {
        self.asked()
    }

    fn wake(&mut self, request: &ActivationWake, now_ms: u64) -> (r: Result<
        ActivationWakeOutcome,
        ActivationError,
    >) {
        let r = self.shelf.wake(request, now_ms);
        self.note(Ghost(ActivationCall::Wake(request@, now_ms, answered(r))));
        proof {
            self.lemma_finite();
        }
        r
    }

    fn claim_due(&mut self, request: &ActivationClaimRequest) -> (r: Result<
        Vec<ActivationGrant>,
        ActivationError,
    >) {
        let r = self.shelf.claim_due(request);
        self.note(Ghost(ActivationCall::ClaimDue(request@, sweep_answer(r))));
        proof {
            self.lemma_finite();
        }
        r
    }

    fn claim_item(&mut self, item_id: &ActivationItemId, request: &ActivationClaimRequest) -> (r:
        Result<ActivationClaim, ActivationError>) {
        let r = self.shelf.claim_item(item_id, request);
        self.note(Ghost(ActivationCall::ClaimItem(item_id@, request@, claim_answer(r))));
        proof {
            self.lemma_finite();
        }
        r
    }

    fn renew(&mut self, handle: &ActivationHandle, lease_ms: u64, now_ms: u64) -> (r: Result<
        ActivationRenewal,
        ActivationError,
    >) {
        let r = self.shelf.renew(handle, lease_ms, now_ms);
        self.note(Ghost(ActivationCall::Renew(handle@, lease_ms, now_ms, answered(r))));
        proof {
            self.lemma_finite();
        }
        r
    }

    fn release(
        &mut self,
        handle: &ActivationHandle,
        disposition: ActivationDisposition,
        now_ms: u64,
    ) -> (r: Result<ActivationSettlement, ActivationError>) {
        let r = self.shelf.release(handle, disposition, now_ms);
        self.note(Ghost(ActivationCall::Release(handle@, disposition, now_ms, answered(r))));
        proof {
            self.lemma_finite();
        }
        r
    }

    fn inspect(&mut self, item_id: &ActivationItemId) -> (r: Result<
        Option<ActivationItemState>,
        ActivationError,
    >) {
        let r = self.shelf.inspect(item_id);
        self.note(Ghost(ActivationCall::Inspect(item_id@, inspect_answer(r))));
        proof {
            self.lemma_finite();
        }
        r
    }

    fn purge_settled(&mut self, settled_before_ms: u64) -> (r: Result<usize, ActivationError>) {
        let r = self.shelf.purge_settled(settled_before_ms);
        self.note(Ghost(ActivationCall::Purge(settled_before_ms, answered(r))));
        proof {
            self.lemma_finite();
        }
        r
    }
}

} // verus!
