//! What holds of the coordinator as a whole.

use crate::activation::book::{
    claim_on, claimable, due_before, due_ids, due_listing, first_n, grant_all, kept_on, release_on,
    renew_on, sweep_on, wake_on, Items,
};
use crate::activation::item::{grant_effect, held, honoured, item_ok, purgeable, ItemView};
use crate::activation::{
    item_id_fault, worker_id_fault, ActivationDisposition, ActivationSettlement,
    ActivationWakeOutcome, ClaimView, GrantView, HandleView, LeaseView, RequestView, WakeView,
    MAX_ACTIVATION_PAYLOAD_BYTES,
};
use vstd::prelude::*;

verus! {

/// A granted claim mints a token that the item has never had, one above the highest.
pub proof fn law_grants_advance_the_token(items: Items, id: Seq<char>, request: RequestView)
    ensures
        claim_on(items, id, request).0 matches Ok(ClaimView::Granted(grant)) ==> {
            &&& items.dom().contains(id)
            &&& grant.token == items[id].fencing_token + 1
            &&& grant.attempt == items[id].attempt + 1
            &&& claim_on(items, id, request).1[id].fencing_token == grant.token
            &&& grant.worker_id == request.worker_id
            &&& grant.payload == items[id].payload
        },
{
}

/// No operation on an item lowers its fencing token.
pub proof fn law_tokens_never_fall(
    items: Items,
    id: Seq<char>,
    wake: WakeView,
    request: RequestView,
    handle: HandleView,
    disposition: ActivationDisposition,
    lease_ms: u64,
    now_ms: u64,
)
    requires
        items.dom().contains(id),
    ensures
        wake_on(items, wake, now_ms).1.dom().contains(id),
        wake_on(items, wake, now_ms).1[id].fencing_token >= items[id].fencing_token,
        claim_on(items, id, request).1[id].fencing_token >= items[id].fencing_token,
        renew_on(items, handle, lease_ms, now_ms).1[id].fencing_token >= items[id].fencing_token,
        release_on(items, handle, disposition, now_ms).1[id].fencing_token
            >= items[id].fencing_token,
{
}

/// While a lease is live, the item has one holder: every claim is answered with who holds it and
/// until when, no sweep finds it, its schedule is not moved, and the items stay as they are.
pub proof fn law_one_holder(items: Items, id: Seq<char>, request: RequestView, wake: WakeView)
    requires
        items.dom().contains(id),
        held(items[id], request.now_ms),
        wake.item_id == id,
    ensures
        claim_on(items, id, request).0 == Ok::<ClaimView, crate::activation::ActivationFault>(
            ClaimView::Held {
                worker_id: items[id].lease->0.worker_id,
                expires_at_ms: items[id].lease->0.expires_at_ms,
            },
        ),
        claim_on(items, id, request).1 == items,
        !claimable(items, id, request.now_ms),
        wake_on(items, wake, request.now_ms).0 == Ok::<
            ActivationWakeOutcome,
            crate::activation::ActivationFault,
        >(ActivationWakeOutcome::Held),
        wake_on(items, wake, request.now_ms).1 == items,
{
    assert(items.insert(id, items[id]) =~= items);
}

/// A granted item is held by the worker that claimed it, until its lease expires.
pub proof fn law_grants_hold(items: Items, id: Seq<char>, request: RequestView, later_ms: u64)
    ensures
        claim_on(items, id, request).0 matches Ok(ClaimView::Granted(grant)) ==> {
            let after = claim_on(items, id, request).1;
            &&& after[id].lease == Some(
                LeaseView {
                    worker_id: request.worker_id,
                    token: grant.token,
                    expires_at_ms: grant.expires_at_ms,
                },
            )
            &&& later_ms < grant.expires_at_ms <==> honoured(after[id], grant.handle(), later_ms)
        },
{
}

/// A fence other than the one being honoured is refused, and changes nothing.
pub proof fn law_other_fences_are_refused(
    items: Items,
    handle: HandleView,
    disposition: ActivationDisposition,
    lease_ms: u64,
    now_ms: u64,
)
    requires
        items.dom().contains(handle.item_id) ==> !honoured(
            items[handle.item_id],
            handle,
            now_ms,
        ),
    ensures
        renew_on(items, handle, lease_ms, now_ms).1 == items,
        renew_on(items, handle, lease_ms, now_ms).0 matches Ok(answer) ==> answer is Fenced,
        release_on(items, handle, disposition, now_ms).1 == items,
        release_on(items, handle, disposition, now_ms).0 matches Ok(answer) && (answer is Fenced
            || answer is AlreadySettled),
{
    if items.dom().contains(handle.item_id) {
        assert(items.insert(handle.item_id, items[handle.item_id]) =~= items);
    }
}

/// Once a later claim was granted, the earlier holder can neither renew nor record an outcome.
pub proof fn law_superseded_workers_are_fenced(
    items: Items,
    old_handle: HandleView,
    request: RequestView,
    disposition: ActivationDisposition,
    lease_ms: u64,
    now_ms: u64,
)
    requires
        items.dom().contains(old_handle.item_id),
        old_handle.token <= items[old_handle.item_id].fencing_token,
        claim_on(items, old_handle.item_id, request).0 matches Ok(ClaimView::Granted(_)),
    ensures
        ({
            let after = claim_on(items, old_handle.item_id, request).1;
            &&& !honoured(after[old_handle.item_id], old_handle, now_ms)
            &&& renew_on(after, old_handle, lease_ms, now_ms).1 == after
            &&& renew_on(after, old_handle, lease_ms, now_ms).0 matches Ok(answer) ==> answer
                is Fenced
            &&& release_on(after, old_handle, disposition, now_ms).1 == after
        }),
{
    let after = claim_on(items, old_handle.item_id, request).1;
    law_other_fences_are_refused(after, old_handle, disposition, lease_ms, now_ms);
}

/// A retried release is answered as already settled, whenever and however it is retried, and
/// changes nothing.
pub proof fn law_release_is_idempotent(
    items: Items,
    handle: HandleView,
    disposition: ActivationDisposition,
    now_ms: u64,
    retried: ActivationDisposition,
    later_ms: u64,
)
    requires
        release_on(items, handle, disposition, now_ms).0 matches Ok(
            ActivationSettlement::Settled,
        ),
    ensures
        ({
            let after = release_on(items, handle, disposition, now_ms).1;
            &&& release_on(after, handle, retried, later_ms).0 == Ok::<
                ActivationSettlement,
                crate::activation::ActivationFault,
            >(ActivationSettlement::AlreadySettled)
            &&& release_on(after, handle, retried, later_ms).1 == after
        }),
{
    let after = release_on(items, handle, disposition, now_ms).1;
    assert(after.insert(handle.item_id, after[handle.item_id]) =~= after);
}

proof fn lemma_grants_remember(
    items: Items,
    ids: Seq<Seq<char>>,
    request: RequestView,
    id: Seq<char>,
)
    requires
        items.dom().contains(id),
    ensures
        grant_all(items, ids, request) matches Ok((_, after)) ==> after.dom().contains(id)
            && after[id].settled_token == items[id].settled_token,
    decreases ids.len(),
{
    if ids.len() > 0 {
        lemma_grants_remember(items, ids.drop_last(), request, id);
    }
}

/// Waking, claiming, sweeping and renewing do not forget a settlement.
pub proof fn law_settlements_are_remembered(
    items: Items,
    id: Seq<char>,
    wake: WakeView,
    request: RequestView,
    handle: HandleView,
    lease_ms: u64,
    now_ms: u64,
)
    requires
        items.dom().contains(id),
    ensures
        wake_on(items, wake, now_ms).1[id].settled_token == items[id].settled_token,
        claim_on(items, id, request).1[id].settled_token == items[id].settled_token,
        sweep_on(items, request).1[id].settled_token == items[id].settled_token,
        renew_on(items, handle, lease_ms, now_ms).1[id].settled_token == items[id].settled_token,
{
    lemma_grants_remember(
        items,
        first_n(due_ids(items, request.now_ms), request.limit),
        request,
        id,
    );
}

/// A completed item is not claimable, by name or by sweep, until it is woken.
pub proof fn law_completed_items_rest(
    items: Items,
    handle: HandleView,
    now_ms: u64,
    request: RequestView,
)
    requires
        release_on(items, handle, ActivationDisposition::Complete, now_ms).0 matches Ok(
            ActivationSettlement::Settled,
        ),
    ensures
        ({
            let after = release_on(items, handle, ActivationDisposition::Complete, now_ms).1;
            &&& after[handle.item_id].settled_at_ms == Some(now_ms)
            &&& claim_on(after, handle.item_id, request).0 == Ok::<
                ClaimView,
                crate::activation::ActivationFault,
            >(ClaimView::Settled)
            &&& !claimable(after, handle.item_id, request.now_ms)
        }),
{
}

/// A yielded item returns to the queue at the time that it asked for.
pub proof fn law_yielded_items_return(
    items: Items,
    handle: HandleView,
    due_at_ms: u64,
    now_ms: u64,
    later_ms: u64,
)
    requires
        release_on(items, handle, ActivationDisposition::Yield { due_at_ms }, now_ms).0
            matches Ok(ActivationSettlement::Settled),
    ensures
        claimable(
            release_on(items, handle, ActivationDisposition::Yield { due_at_ms }, now_ms).1,
            handle.item_id,
            later_ms,
        ) <==> due_at_ms <= later_ms,
{
}

/// An item is granted on a claim exactly where it is claimable, unless its counters or its lease
/// outrun what can be stored.
pub proof fn law_claimable_items_are_granted(items: Items, id: Seq<char>, request: RequestView)
    requires
        items.dom().contains(id),
    ensures
        claimable(items, id, request.now_ms) <==> !(claim_on(items, id, request).0 matches Ok(
            ClaimView::Held { .. },
        )) && !(claim_on(items, id, request).0 matches Ok(ClaimView::NotDue { .. })) && !(
        claim_on(items, id, request).0 matches Ok(ClaimView::Settled)),
        claimable(items, id, request.now_ms) ==> match grant_effect(items[id], request) {
            Ok((grant, _)) => claim_on(items, id, request).0 == Ok::<
                ClaimView,
                crate::activation::ActivationFault,
            >(ClaimView::Granted(grant)),
            Err(e) => claim_on(items, id, request).0 == Err::<
                ClaimView,
                crate::activation::ActivationFault,
            >(e),
        },
{
}

/// Waking an item again in exactly the same way changes nothing.
pub proof fn law_wake_is_idempotent(items: Items, wake: WakeView, now_ms: u64)
    requires
        wake_on(items, wake, now_ms).0 is Ok,
    ensures
        ({
            let (first, after) = wake_on(items, wake, now_ms);
            let (second, again) = wake_on(after, wake, now_ms);
            &&& again == after
            &&& first matches Ok(ActivationWakeOutcome::Held) ==> second == first
            &&& !(first matches Ok(ActivationWakeOutcome::Held)) ==> second == Ok::<
                ActivationWakeOutcome,
                crate::activation::ActivationFault,
            >(ActivationWakeOutcome::Unchanged)
        }),
{
    let after = wake_on(items, wake, now_ms).1;
    assert(after.insert(wake.item_id, after[wake.item_id]) =~= after);
}

/// Whether all items are valid, can be stored, and stand under their own identity.
pub open spec fn items_ok(items: Items) -> bool {
    forall|id: Seq<char>| #[trigger]
        items.dom().contains(id) ==> item_ok(items[id]) && items[id].item_id == id
}

/// Valid items stay valid: whatever an operation leaves behind can be stored and read back.
pub proof fn law_items_stay_valid(
    items: Items,
    wake: WakeView,
    request: RequestView,
    id: Seq<char>,
    handle: HandleView,
    disposition: ActivationDisposition,
    lease_ms: u64,
    now_ms: u64,
)
    requires
        items_ok(items),
        item_id_fault(wake.item_id) is None,
        wake.payload.len() <= MAX_ACTIVATION_PAYLOAD_BYTES,
        worker_id_fault(request.worker_id) is None,
    ensures
        items_ok(wake_on(items, wake, now_ms).1),
        items_ok(claim_on(items, id, request).1),
        items_ok(renew_on(items, handle, lease_ms, now_ms).1),
        items_ok(release_on(items, handle, disposition, now_ms).1),
        items_ok(kept_on(items, now_ms)),
{
    assert(items_ok(wake_on(items, wake, now_ms).1)) by {
        let after = wake_on(items, wake, now_ms).1;
        assert forall|k: Seq<char>| #[trigger] after.dom().contains(k) implies item_ok(after[k])
            && after[k].item_id == k by {
            if items.dom().contains(k) {
                assert(item_ok(items[k]));
            }
        }
    }
    assert(items_ok(claim_on(items, id, request).1)) by {
        let after = claim_on(items, id, request).1;
        assert forall|k: Seq<char>| #[trigger] after.dom().contains(k) implies item_ok(after[k])
            && after[k].item_id == k by {
            assert(items.dom().contains(k));
        }
    }
    assert(items_ok(renew_on(items, handle, lease_ms, now_ms).1)) by {
        let after = renew_on(items, handle, lease_ms, now_ms).1;
        assert forall|k: Seq<char>| #[trigger] after.dom().contains(k) implies item_ok(after[k])
            && after[k].item_id == k by {
            assert(items.dom().contains(k));
        }
    }
    assert(items_ok(release_on(items, handle, disposition, now_ms).1)) by {
        let after = release_on(items, handle, disposition, now_ms).1;
        assert forall|k: Seq<char>| #[trigger] after.dom().contains(k) implies item_ok(after[k])
            && after[k].item_id == k by {
            assert(items.dom().contains(k));
        }
    }
    assert(items_ok(kept_on(items, now_ms))) by {
        let after = kept_on(items, now_ms);
        assert forall|k: Seq<char>| #[trigger] after.dom().contains(k) implies item_ok(after[k])
            && after[k].item_id == k by {
            assert(items.dom().contains(k));
        }
    }
}

/// Retention drops items that were completed by the given instant and rest, and nothing else.
pub proof fn law_retention_drops_only_settled(items: Items, before_ms: u64, id: Seq<char>)
    requires
        items.dom().contains(id),
    ensures
        kept_on(items, before_ms).dom().contains(id) <==> !purgeable(items[id], before_ms),
        kept_on(items, before_ms).dom().contains(id) ==> kept_on(items, before_ms)[id]
            == items[id],
        items[id].due_at_ms is Some || items[id].lease is Some || items[id].settled_at_ms is None
            ==> kept_on(items, before_ms).dom().contains(id),
{
}

/// A sweep takes at most as many items as it asked for; each was due and free, and they come
/// oldest first, ties broken by identity.
pub proof fn law_sweeps_take_due_work_in_order(items: Items, request: RequestView)
    requires
        items.dom().finite(),
    ensures
        sweep_on(items, request).0 matches Ok(grants) ==> {
            let ids = first_n(due_ids(items, request.now_ms), request.limit);
            &&& grants.len() == ids.len()
            &&& grants.len() <= request.limit
            &&& forall|i: int|
                0 <= i < ids.len() ==> claimable(items, #[trigger] ids[i], request.now_ms)
            &&& forall|i: int, j: int|
                0 <= i < j < ids.len() ==> due_before(items, #[trigger] ids[i], #[trigger] ids[j])
            &&& forall|i: int|
                0 <= i < ids.len() ==> {
                    &&& (#[trigger] grants[i]).worker_id == request.worker_id
                    &&& grants[i].due_at_ms == items[ids[i]].due_at_ms->0
                    &&& grants[i].due_at_ms <= request.now_ms
                    &&& grants[i].token == items[ids[i]].fencing_token + 1
                    &&& grants[i].item_id == items[ids[i]].item_id
                }
        },
{
    let all = due_ids(items, request.now_ms);
    let ids = first_n(all, request.limit);
    lemma_due_order_exists(items, request.now_ms);
    assert forall|i: int| 0 <= i < ids.len() implies claimable(
        items,
        #[trigger] ids[i],
        request.now_ms,
    ) by {
        assert(all.contains(all[i]));
    }
    assert forall|i: int, j: int| 0 <= i < j < ids.len() implies due_before(
        items,
        #[trigger] ids[i],
        #[trigger] ids[j],
    ) by {
        assert(due_before(items, all[i], all[j]));
    }
    assert forall|i: int, j: int| 0 <= i < j < ids.len() implies ids[i] != ids[j] by {
        assert(due_before(items, ids[i], ids[j]));
        if ids[i] == ids[j] {
            crate::text::lemma_text_order(ids[i], ids[i], ids[i]);
        }
    }
    lemma_grant_all_each(items, ids, request);
}

/// Whether a grant is the one that an item is given on a request.
spec fn given(item: ItemView, request: RequestView, grant: GrantView) -> bool {
    grant_effect(item, request) matches Ok((g, _)) && g == grant
}

/// A list in due order with one more item in its place.
spec fn insert_in_due_order(items: Items, ids: Seq<Seq<char>>, id: Seq<char>) -> Seq<Seq<char>>
    decreases ids.len(),
{
    if ids.len() == 0 {
        seq![id]
    } else if due_before(items, ids[0], id) {
        seq![ids[0]] + insert_in_due_order(items, ids.drop_first(), id)
    } else {
        seq![id] + ids
    }
}

/// Whether a list is in due order.
spec fn in_due_order(items: Items, ids: Seq<Seq<char>>) -> bool {
    forall|i: int, j: int|
        0 <= i < j < ids.len() ==> due_before(items, #[trigger] ids[i], #[trigger] ids[j])
}

proof fn lemma_due_total(items: Items, a: Seq<char>, b: Seq<char>, c: Seq<char>)
    ensures
        a == b || due_before(items, a, b) || due_before(items, b, a),
        due_before(items, a, b) && due_before(items, b, c) ==> due_before(items, a, c),
{
    crate::text::lemma_text_order(a, b, c);
}

proof fn lemma_insert_in_due_order(items: Items, ids: Seq<Seq<char>>, id: Seq<char>)
    requires
        in_due_order(items, ids),
        !ids.contains(id),
    ensures
        in_due_order(items, insert_in_due_order(items, ids, id)),
        forall|x: Seq<char>|
            #[trigger] insert_in_due_order(items, ids, id).contains(x) <==> ids.contains(x) || x
                == id,
    decreases ids.len(),
{
    let out = insert_in_due_order(items, ids, id);
    if ids.len() == 0 {
        assert(out[0] == id);
        assert forall|x: Seq<char>| #[trigger] out.contains(x) <==> ids.contains(x) || x == id by {}
    } else if due_before(items, ids[0], id) {
        let rest = ids.drop_first();
        assert forall|i: int, j: int| 0 <= i < j < rest.len() implies due_before(
            items,
            #[trigger] rest[i],
            #[trigger] rest[j],
        ) by {
            assert(rest[i] == ids[i + 1]);
            assert(rest[j] == ids[j + 1]);
        }
        assert(!rest.contains(id)) by {
            if rest.contains(id) {
                let k = choose|k: int| 0 <= k < rest.len() && rest[k] == id;
                assert(ids[k + 1] == id);
            }
        }
        lemma_insert_in_due_order(items, rest, id);
        let tail = insert_in_due_order(items, rest, id);
        assert forall|x: Seq<char>| #[trigger] out.contains(x) <==> ids.contains(x) || x == id by {
            if out.contains(x) {
                let k = choose|k: int| 0 <= k < out.len() && out[k] == x;
                if k == 0 {
                    assert(ids[0] == x);
                } else {
                    assert(tail[k - 1] == x);
                    assert(tail.contains(x));
                    if x != id {
                        let r = choose|r: int| 0 <= r < rest.len() && rest[r] == x;
                        assert(ids[r + 1] == x);
                    }
                }
            }
            if ids.contains(x) || x == id {
                if x == ids[0] {
                    assert(out[0] == x);
                } else {
                    if ids.contains(x) {
                        let k = choose|k: int| 0 <= k < ids.len() && ids[k] == x;
                        assert(rest[k - 1] == x);
                    }
                    assert(tail.contains(x));
                    let t = choose|t: int| 0 <= t < tail.len() && tail[t] == x;
                    assert(out[t + 1] == x);
                }
            }
        }
        assert forall|i: int, j: int| 0 <= i < j < out.len() implies due_before(
            items,
            #[trigger] out[i],
            #[trigger] out[j],
        ) by {
            assert(out[j] == tail[j - 1]);
            if i > 0 {
                assert(out[i] == tail[i - 1]);
            } else {
                assert(tail.contains(tail[j - 1]));
                if tail[j - 1] != id {
                    let r = choose|r: int| 0 <= r < rest.len() && rest[r] == tail[j - 1];
                    assert(ids[r + 1] == tail[j - 1]);
                }
            }
        }
    } else {
        assert(ids.contains(ids[0]));
        lemma_due_total(items, ids[0], id, id);
        assert(due_before(items, id, ids[0]));
        assert forall|x: Seq<char>| #[trigger] out.contains(x) <==> ids.contains(x) || x == id by {
            if out.contains(x) {
                let k = choose|k: int| 0 <= k < out.len() && out[k] == x;
                if k > 0 {
                    assert(ids[k - 1] == x);
                }
            }
            if ids.contains(x) {
                let k = choose|k: int| 0 <= k < ids.len() && ids[k] == x;
                assert(out[k + 1] == x);
            }
            assert(out[0] == id);
        }
        assert forall|i: int, j: int| 0 <= i < j < out.len() implies due_before(
            items,
            #[trigger] out[i],
            #[trigger] out[j],
        ) by {
            assert(out[j] == ids[j - 1]);
            if i > 0 {
                assert(out[i] == ids[i - 1]);
            } else if j > 1 {
                assert(due_before(items, ids[0], ids[j - 1]));
                lemma_due_total(items, id, ids[0], ids[j - 1]);
            }
        }
    }
}

proof fn lemma_listing_within(items: Items, now_ms: u64, part: Set<Seq<char>>) -> (ids: Seq<
    Seq<char>,
>)
    requires
        part.finite(),
    ensures
        in_due_order(items, ids),
        forall|id: Seq<char>|
            #[trigger] ids.contains(id) <==> part.contains(id) && claimable(items, id, now_ms),
    decreases part.len(),
{
    if part.len() == 0 {
        let ids = Seq::<Seq<char>>::empty();
        assert(part =~= Set::empty());
        ids
    } else {
        let id = part.choose();
        let rest = lemma_listing_within(items, now_ms, part.remove(id));
        if claimable(items, id, now_ms) {
            assert(!rest.contains(id));
            lemma_insert_in_due_order(items, rest, id);
            let ids = insert_in_due_order(items, rest, id);
            assert forall|x: Seq<char>| #[trigger] ids.contains(x) <==> part.contains(x)
                && claimable(items, x, now_ms) by {
                assert(ids.contains(x) <==> rest.contains(x) || x == id);
            }
            ids
        } else {
            assert forall|x: Seq<char>| #[trigger] rest.contains(x) <==> part.contains(x)
                && claimable(items, x, now_ms) by {}
            rest
        }
    }
}

/// Finitely many items have a due order.
pub proof fn lemma_due_order_exists(items: Items, now_ms: u64)
    requires
        items.dom().finite(),
    ensures
        due_listing(items, now_ms, due_ids(items, now_ms)),
{
    let ids = lemma_listing_within(items, now_ms, items.dom());
    assert forall|id: Seq<char>| ids.contains(id) <==> #[trigger] claimable(items, id, now_ms) by {
        assert(ids.contains(id) <==> items.dom().contains(id) && claimable(items, id, now_ms));
    }
    assert(due_listing(items, now_ms, ids));
}

proof fn lemma_grant_all_each(items: Items, ids: Seq<Seq<char>>, request: RequestView)
    requires
        forall|i: int, j: int| 0 <= i < j < ids.len() ==> ids[i] != ids[j],
    ensures
        grant_all(items, ids, request) matches Ok((grants, after)) ==> {
            &&& grants.len() == ids.len()
            &&& forall|i: int|
                0 <= i < ids.len() ==> given(items[#[trigger] ids[i]], request, grants[i])
            &&& forall|id: Seq<char>|
                !ids.contains(id) ==> #[trigger] after[id] == items[id]
        },
    decreases ids.len(),
{
    if ids.len() > 0 {
        let head = ids.drop_last();
        assert forall|i: int, j: int| 0 <= i < j < head.len() implies head[i] != head[j] by {
            assert(head[i] == ids[i]);
            assert(head[j] == ids[j]);
        }
        lemma_grant_all_each(items, head, request);
        match grant_all(items, ids, request) {
            Ok((grants, after)) => {
                let (g, m) = grant_all(items, head, request)->Ok_0;
                let last = ids.last();
                assert(!head.contains(last)) by {
                    if head.contains(last) {
                        let k = choose|k: int| 0 <= k < head.len() && head[k] == last;
                        assert(ids[k] == ids[ids.len() - 1]);
                    }
                }
                assert(m[last] == items[last]);
                assert forall|i: int| 0 <= i < ids.len() implies given(
                    items[#[trigger] ids[i]],
                    request,
                    grants[i],
                ) by {
                    if i < head.len() {
                        assert(head[i] == ids[i]);
                    }
                }
                assert forall|id: Seq<char>| !ids.contains(id) implies #[trigger] after[id]
                    == items[id] by {
                    assert(ids[ids.len() - 1] == last);
                    if head.contains(id) {
                        let k = choose|k: int| 0 <= k < head.len() && head[k] == id;
                        assert(ids[k] == id);
                    }
                    assert(m[id] == items[id]);
                }
            },
            Err(_) => {},
        }
    }
}

} // verus!
