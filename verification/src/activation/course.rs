//! The course of a work item: what each operation changes of it, what it leaves, and what a grant
//! hands back.

use crate::activation::book::{
    claim_on, claimable, due_before, due_ids, due_listing, first_n, grant_all, inspect_on,
    kept_on,
    release_on, renew_on, sweep_on, wake_on, Items,
};
use crate::activation::item::{item_fault, row_fault, ItemView, RowView};
use crate::activation::laws::{items_ok, lemma_due_order_exists};
use crate::activation::{
    item_id_fault, request_fault, worker_id_fault, ActivationDisposition, ActivationRenewal,
    ActivationSettlement, ActivationWakeOutcome, ClaimView, GrantView, HandleView, LeaseView,
    RequestView, WakeView, MAX_ACTIVATION_CLAIM_BATCH, MAX_ACTIVATION_LEASE_MS,
    MAX_ACTIVATION_PAYLOAD_BYTES,
};
use crate::text::{lemma_text_order, text_lt};
use vstd::prelude::*;

verus! {

/// Only a wake changes a payload: claiming, sweeping, renewing, releasing and retention leave the
/// payload of every item as it was, and so does a wake of another item or one that is answered
/// as held or unchanged.
pub proof fn law_payloads_change_by_waking_alone(
    items: Items,
    id: Seq<char>,
    wake: WakeView,
    named: Seq<char>,
    request: RequestView,
    handle: HandleView,
    disposition: ActivationDisposition,
    lease_ms: u64,
    now_ms: u64,
)
    requires
        items.dom().contains(id),
    ensures
        claim_on(items, named, request).1.dom().contains(id),
        claim_on(items, named, request).1[id].payload == items[id].payload,
        sweep_on(items, request).1.dom().contains(id),
        sweep_on(items, request).1[id].payload == items[id].payload,
        renew_on(items, handle, lease_ms, now_ms).1.dom().contains(id),
        renew_on(items, handle, lease_ms, now_ms).1[id].payload == items[id].payload,
        release_on(items, handle, disposition, now_ms).1.dom().contains(id),
        release_on(items, handle, disposition, now_ms).1[id].payload == items[id].payload,
        kept_on(items, now_ms).dom().contains(id) ==> kept_on(items, now_ms)[id].payload
            == items[id].payload,
        wake_on(items, wake, now_ms).1.dom().contains(id),
        wake.item_id != id || !(wake_on(items, wake, now_ms).0 matches Ok(
            ActivationWakeOutcome::Rescheduled,
        )) ==> wake_on(items, wake, now_ms).1[id].payload == items[id].payload,
{
    lemma_grants_keep(items, first_n(due_ids(items, request.now_ms), request.limit), request, id);
}

proof fn lemma_grants_keep(items: Items, ids: Seq<Seq<char>>, request: RequestView, id: Seq<char>)
    requires
        items.dom().contains(id),
    ensures
        grant_all(items, ids, request) matches Ok((_, after)) ==> {
            &&& after.dom().contains(id)
            &&& after[id].item_id == items[id].item_id
            &&& after[id].payload == items[id].payload
            &&& after[id].due_at_ms == items[id].due_at_ms
            &&& after[id].settled_token == items[id].settled_token
        },
    decreases ids.len(),
{
    if ids.len() > 0 {
        lemma_grants_keep(items, ids.drop_last(), request, id);
    }
}

/// A wake registers an item that is not there, is answered as held while a lease is live, as
/// unchanged where the item is due at the same time with the same payload, and reschedules it
/// otherwise. A registered or rescheduled item is due when the wake says, with the wake's payload,
/// and is not settled; it keeps its attempts, its token, its lease and its last settlement, which
/// a new item has none of. Any other answer leaves the items as they were.
pub proof fn law_wakes_set_what_they_carry(items: Items, wake: WakeView, now_ms: u64)
    ensures
        ({
            let id = wake.item_id;
            let (answer, after) = wake_on(items, wake, now_ms);
            let there = items.dom().contains(id);
            let live = there && items[id].lease is Some && items[id].lease->0.expires_at_ms
                > now_ms;
            let same = there && items[id].due_at_ms == Some(wake.due_at_ms) && items[id].payload
                == wake.payload;
            &&& answer is Ok <==> live || same || wake.due_at_ms <= i64::MAX
            &&& (answer matches Ok(ActivationWakeOutcome::Held)) <==> live
            &&& (answer matches Ok(ActivationWakeOutcome::Unchanged)) <==> same && !live
            &&& (answer matches Ok(ActivationWakeOutcome::Registered)) <==> !there && wake.due_at_ms
                <= i64::MAX
            &&& (answer matches Ok(ActivationWakeOutcome::Rescheduled)) <==> there && !live && !same
                && wake.due_at_ms <= i64::MAX
            &&& (answer matches Ok(ActivationWakeOutcome::Registered)) || (answer matches Ok(
                ActivationWakeOutcome::Rescheduled,
            )) ==> {
                &&& after.dom() == items.dom().insert(id)
                &&& after[id].due_at_ms == Some(wake.due_at_ms)
                &&& after[id].payload == wake.payload
                &&& after[id].settled_at_ms is None
            }
            &&& answer matches Ok(ActivationWakeOutcome::Registered) ==> {
                &&& after[id].item_id == id
                &&& after[id].attempt == 0
                &&& after[id].fencing_token == 0
                &&& after[id].lease is None
                &&& after[id].settled_token is None
            }
            &&& answer matches Ok(ActivationWakeOutcome::Rescheduled) ==> {
                &&& after[id].item_id == items[id].item_id
                &&& after[id].attempt == items[id].attempt
                &&& after[id].fencing_token == items[id].fencing_token
                &&& after[id].lease == items[id].lease
                &&& after[id].settled_token == items[id].settled_token
            }
            &&& !(answer matches Ok(ActivationWakeOutcome::Registered)) && !(answer matches Ok(
                ActivationWakeOutcome::Rescheduled,
            )) ==> after == items
        }),
{
    let id = wake.item_id;
    if items.dom().contains(id) {
        assert(items.insert(id, items[id]) =~= items);
    }
}

/// Whether a grant is the next one of an item, for a request: it hands back the item's payload and
/// due time under a token and an attempt that are one above the last, to the worker that asks,
/// until the lease that it asks for is over.
pub open spec fn next_grant(item: ItemView, request: RequestView, grant: GrantView) -> bool {
    &&& grant.item_id == item.item_id
    &&& grant.worker_id == request.worker_id
    &&& grant.token == item.fencing_token + 1
    &&& grant.attempt == item.attempt + 1
    &&& Some(grant.due_at_ms) == item.due_at_ms
    &&& grant.due_at_ms <= request.now_ms
    &&& grant.payload == item.payload
    &&& request.now_ms + request.lease_ms <= u64::MAX ==> grant.expires_at_ms == request.now_ms
        + request.lease_ms
}

/// Whether an item is the one before, under a grant: it holds the grant's lease, token and attempt,
/// is not settled, and is otherwise as it was.
pub open spec fn under_grant(before: ItemView, grant: GrantView, after: ItemView) -> bool {
    &&& after.item_id == before.item_id
    &&& after.due_at_ms == before.due_at_ms
    &&& after.payload == before.payload
    &&& after.attempt == grant.attempt
    &&& after.fencing_token == grant.token
    &&& after.lease == Some(
        LeaseView {
            worker_id: grant.worker_id,
            token: grant.token,
            expires_at_ms: grant.expires_at_ms,
        },
    )
    &&& after.settled_at_ms is None
    &&& after.settled_token == before.settled_token
}

/// A claim is answered as unknown where there is no such item, as held while a lease is live, as
/// settled where nothing is due, and as not due before its time; otherwise the item is granted,
/// if its counters and the lease's end can be stored. Only a grant changes anything, and of the
/// granted item alone: it holds the grant's lease, token and attempt.
pub proof fn law_claims_grant_what_is_due(items: Items, id: Seq<char>, request: RequestView)
    ensures
        ({
            let (answer, after) = claim_on(items, id, request);
            let there = items.dom().contains(id);
            let item = items[id];
            let live = item.lease is Some && item.lease->0.expires_at_ms > request.now_ms;
            let due = item.due_at_ms;
            let room = item.attempt < i64::MAX && item.fencing_token < i64::MAX && request.now_ms
                + request.lease_ms <= i64::MAX;
            &&& (answer matches Ok(ClaimView::Unknown)) <==> !there
            &&& (answer matches Ok(ClaimView::Held { .. })) <==> there && live
            &&& (answer matches Ok(ClaimView::Settled)) <==> there && !live && due is None
            &&& (answer matches Ok(ClaimView::NotDue { .. })) <==> there && !live && due is Some
                && due->0 > request.now_ms
            &&& (answer matches Ok(ClaimView::Granted(_))) <==> there && !live && due is Some
                && due->0 <= request.now_ms && room
            &&& answer matches Ok(ClaimView::Held { worker_id, expires_at_ms }) ==> worker_id
                == item.lease->0.worker_id && expires_at_ms == item.lease->0.expires_at_ms
            &&& answer matches Ok(ClaimView::NotDue { due_at_ms }) ==> Some(due_at_ms) == due
            &&& answer matches Ok(ClaimView::Granted(grant)) ==> {
                &&& next_grant(item, request, grant)
                &&& after.dom() == items.dom()
                &&& under_grant(item, grant, after[id])
                &&& forall|other: Seq<char>| other != id ==> #[trigger] after[other] == items[other]
            }
            &&& !(answer matches Ok(ClaimView::Granted(_))) ==> after == items
        }),
{
    if items.dom().contains(id) {
        assert(items.insert(id, items[id]) =~= items);
        assert(items.insert(id, claim_on(items, id, request).1[id]).dom() =~= items.dom());
    }
}

/// A renewal holds exactly where the handle's lease is live, its length is allowed, and its end
/// fits the clock and can be stored. It moves the end of the lease to the given length from now
/// and changes nothing else; any other answer changes nothing at all.
pub proof fn law_renewals_move_the_end_alone(
    items: Items,
    handle: HandleView,
    lease_ms: u64,
    now_ms: u64,
)
    ensures
        ({
            let id = handle.item_id;
            let (answer, after) = renew_on(items, handle, lease_ms, now_ms);
            let item = items[id];
            let holds = items.dom().contains(id) && item.lease is Some
                && item.lease->0.expires_at_ms > now_ms && item.lease->0.worker_id
                == handle.worker_id && item.lease->0.token == handle.token;
            let allowed = 0 < lease_ms <= MAX_ACTIVATION_LEASE_MS && now_ms + lease_ms
                <= u64::MAX;
            &&& (answer matches Ok(ActivationRenewal::Fenced)) <==> allowed && !holds
            &&& (answer matches Ok(ActivationRenewal::Renewed { .. })) <==> allowed && holds && now_ms
                + lease_ms <= i64::MAX
            &&& answer matches Ok(ActivationRenewal::Renewed { expires_at_ms }) ==> {
                &&& expires_at_ms == now_ms + lease_ms
                &&& after.dom() == items.dom()
                &&& after[id].lease == Some(
                    LeaseView { worker_id: handle.worker_id, token: handle.token, expires_at_ms },
                )
                &&& after[id].item_id == item.item_id
                &&& after[id].due_at_ms == item.due_at_ms
                &&& after[id].payload == item.payload
                &&& after[id].attempt == item.attempt
                &&& after[id].fencing_token == item.fencing_token
                &&& after[id].settled_at_ms == item.settled_at_ms
                &&& after[id].settled_token == item.settled_token
                &&& forall|other: Seq<char>| other != id ==> #[trigger] after[other] == items[other]
            }
            &&& !(answer matches Ok(ActivationRenewal::Renewed { .. })) ==> after == items
        }),
{
    let id = handle.item_id;
    if items.dom().contains(id) {
        assert(items.insert(id, items[id]) =~= items);
        assert(items.insert(id, renew_on(items, handle, lease_ms, now_ms).1[id]).dom()
            =~= items.dom());
    }
}

/// A release settles the item exactly where the handle's lease is live, its token has not settled
/// it before, and the times can be stored. A completed item is due no more and settled now; a
/// yielded one is due when it asks and not settled. The lease is gone and the token is remembered;
/// the payload, the attempts and the fencing token stay. Any other answer changes nothing.
pub proof fn law_releases_settle_the_lease_alone(
    items: Items,
    handle: HandleView,
    disposition: ActivationDisposition,
    now_ms: u64,
)
    ensures
        ({
            let id = handle.item_id;
            let (answer, after) = release_on(items, handle, disposition, now_ms);
            let there = items.dom().contains(id);
            let item = items[id];
            let again = there && item.settled_token == Some(handle.token);
            let holds = there && item.lease is Some && item.lease->0.expires_at_ms > now_ms
                && item.lease->0.worker_id == handle.worker_id && item.lease->0.token
                == handle.token;
            let room = handle.token <= i64::MAX && match disposition {
                ActivationDisposition::Complete => now_ms <= i64::MAX,
                ActivationDisposition::Yield { due_at_ms } => due_at_ms <= i64::MAX,
            };
            &&& (answer matches Ok(ActivationSettlement::AlreadySettled)) <==> again
            &&& (answer matches Ok(ActivationSettlement::Fenced)) <==> !again && !holds
            &&& (answer matches Ok(ActivationSettlement::Settled)) <==> !again && holds && room
            &&& answer matches Ok(ActivationSettlement::Settled) ==> {
                &&& after.dom() == items.dom()
                &&& after[id].item_id == item.item_id
                &&& after[id].payload == item.payload
                &&& after[id].attempt == item.attempt
                &&& after[id].fencing_token == item.fencing_token
                &&& after[id].lease is None
                &&& after[id].settled_token == Some(handle.token)
                &&& disposition is Complete ==> after[id].due_at_ms is None
                    && after[id].settled_at_ms == Some(now_ms)
                &&& disposition matches ActivationDisposition::Yield { due_at_ms }
                    ==> after[id].due_at_ms == Some(due_at_ms) && after[id].settled_at_ms is None
                &&& forall|other: Seq<char>| other != id ==> #[trigger] after[other] == items[other]
            }
            &&& !(answer matches Ok(ActivationSettlement::Settled)) ==> after == items
        }),
{
    let id = handle.item_id;
    if items.dom().contains(id) {
        assert(items.insert(id, items[id]) =~= items);
        assert(items.insert(id, release_on(items, handle, disposition, now_ms).1[id]).dom()
            =~= items.dom());
    }
}

/// Whether one grant comes before another in a sweep: its item was due earlier, or at the same
/// time under a smaller identity.
pub open spec fn sooner(due_a: u64, a: Seq<char>, due_b: u64, b: Seq<char>) -> bool {
    due_a < due_b || (due_a == due_b && text_lt(a, b))
}

proof fn lemma_grants_each(items: Items, ids: Seq<Seq<char>>, request: RequestView)
    requires
        forall|i: int, j: int| 0 <= i < j < ids.len() ==> ids[i] != ids[j],
        forall|i: int| 0 <= i < ids.len() ==> claimable(items, #[trigger] ids[i], request.now_ms),
    ensures
        grant_all(items, ids, request) matches Ok((grants, after)) ==> {
            &&& grants.len() == ids.len()
            &&& after.dom() == items.dom()
            &&& forall|i: int|
                0 <= i < ids.len() ==> next_grant(items[#[trigger] ids[i]], request, grants[i])
                    && under_grant(items[ids[i]], grants[i], after[ids[i]])
            &&& forall|id: Seq<char>| !ids.contains(id) ==> #[trigger] after[id] == items[id]
        },
    decreases ids.len(),
{
    if ids.len() > 0 {
        let head = ids.drop_last();
        let last = ids.last();
        assert forall|i: int, j: int| 0 <= i < j < head.len() implies head[i] != head[j] by {
            assert(head[i] == ids[i]);
            assert(head[j] == ids[j]);
        }
        assert forall|i: int| 0 <= i < head.len() implies claimable(
            items,
            #[trigger] head[i],
            request.now_ms,
        ) by {
            assert(head[i] == ids[i]);
        }
        lemma_grants_each(items, head, request);
        assert(claimable(items, ids[ids.len() - 1], request.now_ms));
        assert(!head.contains(last)) by {
            if head.contains(last) {
                let k = choose|k: int| 0 <= k < head.len() && head[k] == last;
                assert(ids[k] == ids[ids.len() - 1]);
            }
        }
        match grant_all(items, ids, request) {
            Ok((grants, after)) => {
                let (g, m) = grant_all(items, head, request)->Ok_0;
                assert(m[last] == items[last]);
                assert(after.dom() =~= items.dom());
                assert forall|i: int| 0 <= i < ids.len() implies next_grant(
                    items[#[trigger] ids[i]],
                    request,
                    grants[i],
                ) && under_grant(items[ids[i]], grants[i], after[ids[i]]) by {
                    if i < head.len() {
                        assert(head[i] == ids[i]);
                        assert(ids[i] != ids[ids.len() - 1]);
                        assert(grants[i] == g[i]);
                        assert(after[ids[i]] == m[ids[i]]);
                    }
                }
                assert forall|id: Seq<char>| !ids.contains(id) implies #[trigger] after[id]
                    == items[id] by {
                    assert(ids[ids.len() - 1] == last);
                    if head.contains(id) {
                        let k = choose|k: int| 0 <= k < head.len() && head[k] == id;
                        assert(ids[k] == id);
                    }
                    assert(m[id] == items[id]);
                }
            },
            Err(_) => {},
        }
    }
}

proof fn lemma_swept_once(items: Items, request: RequestView)
    requires
        items.dom().finite(),
    ensures
        ({
            let ids = first_n(due_ids(items, request.now_ms), request.limit);
            &&& forall|i: int, j: int| 0 <= i < j < ids.len() ==> ids[i] != ids[j]
            &&& forall|i: int|
                0 <= i < ids.len() ==> claimable(items, #[trigger] ids[i], request.now_ms)
        }),
{
    let all = due_ids(items, request.now_ms);
    let ids = first_n(all, request.limit);
    lemma_due_order_exists(items, request.now_ms);
    assert(due_listing(items, request.now_ms, all));
    assert forall|i: int| 0 <= i < ids.len() implies claimable(
        items,
        #[trigger] ids[i],
        request.now_ms,
    ) by {
        assert(all.contains(all[i]));
    }
    assert forall|i: int, j: int| 0 <= i < j < ids.len() implies ids[i] != ids[j] by {
        assert(due_before(items, all[i], all[j]));
        lemma_text_order(ids[i], ids[i], ids[i]);
    }
}

/// Whether an item is due at an instant and no live lease holds it.
pub open spec fn due_and_free(item: ItemView, now_ms: u64) -> bool {
    &&& item.due_at_ms is Some && item.due_at_ms->0 <= now_ms
    &&& item.lease is Some ==> item.lease->0.expires_at_ms <= now_ms
}

/// Whether one of the grants is of an item.
pub open spec fn granted(grants: Seq<GrantView>, id: Seq<char>) -> bool {
    exists|i: int| 0 <= i < grants.len() && (#[trigger] grants[i]).item_id == id
}

/// A sweep grants items that are due and free, the oldest first, ties broken by identity, and no
/// more than it asks for. It passes one over only where it has its fill of items that come
/// earlier. Each granted item holds its grant, and every other item is as it was.
pub proof fn law_sweeps_grant_the_oldest_due_work(items: Items, request: RequestView)
    requires
        items_ok(items),
        items.dom().finite(),
    ensures
        sweep_on(items, request).0 is Err ==> sweep_on(items, request).1 == items,
        sweep_on(items, request).0 matches Ok(grants) ==> {
            let after = sweep_on(items, request).1;
            &&& grants.len() <= request.limit
            &&& after.dom() == items.dom()
            &&& forall|i: int|
                0 <= i < grants.len() ==> {
                    let id = (#[trigger] grants[i]).item_id;
                    &&& items.dom().contains(id)
                    &&& due_and_free(items[id], request.now_ms)
                    &&& next_grant(items[id], request, grants[i])
                    &&& under_grant(items[id], grants[i], after[id])
                }
            &&& forall|i: int, j: int|
                0 <= i < j < grants.len() ==> sooner(
                    (#[trigger] grants[i]).due_at_ms,
                    grants[i].item_id,
                    (#[trigger] grants[j]).due_at_ms,
                    grants[j].item_id,
                )
            &&& forall|id: Seq<char>|
                items.dom().contains(id) && !#[trigger] granted(grants, id) ==> {
                    &&& after[id] == items[id]
                    &&& due_and_free(items[id], request.now_ms) ==> {
                        &&& grants.len() == request.limit
                        &&& forall|i: int|
                            0 <= i < grants.len() ==> sooner(
                                (#[trigger] grants[i]).due_at_ms,
                                grants[i].item_id,
                                items[id].due_at_ms->0,
                                id,
                            )
                    }
                }
        },
{
    let all = due_ids(items, request.now_ms);
    let ids = first_n(all, request.limit);
    lemma_due_order_exists(items, request.now_ms);
    assert(due_listing(items, request.now_ms, all));
    lemma_swept_once(items, request);
    lemma_grants_each(items, ids, request);
    match sweep_on(items, request).0 {
        Ok(grants) => {
            let after = sweep_on(items, request).1;
            assert forall|i: int| 0 <= i < grants.len() implies {
                let id = (#[trigger] grants[i]).item_id;
                &&& items.dom().contains(id)
                &&& due_and_free(items[id], request.now_ms)
                &&& next_grant(items[id], request, grants[i])
                &&& under_grant(items[id], grants[i], after[id])
                &&& id == ids[i]
            } by {
                assert(claimable(items, ids[i], request.now_ms));
                assert(items[ids[i]].item_id == ids[i]);
            }
            assert forall|i: int, j: int| 0 <= i < j < grants.len() implies sooner(
                (#[trigger] grants[i]).due_at_ms,
                grants[i].item_id,
                (#[trigger] grants[j]).due_at_ms,
                grants[j].item_id,
            ) by {
                assert(due_before(items, all[i], all[j]));
                assert(grants[i].item_id == ids[i]);
                assert(grants[j].item_id == ids[j]);
            }
            assert forall|id: Seq<char>|
                items.dom().contains(id) && !#[trigger] granted(grants, id) implies {
                &&& after[id] == items[id]
                &&& due_and_free(items[id], request.now_ms) ==> {
                    &&& grants.len() == request.limit
                    &&& forall|i: int|
                        0 <= i < grants.len() ==> sooner(
                            (#[trigger] grants[i]).due_at_ms,
                            grants[i].item_id,
                            items[id].due_at_ms->0,
                            id,
                        )
                }
            } by {
                assert(!ids.contains(id)) by {
                    if ids.contains(id) {
                        let k = choose|k: int| 0 <= k < ids.len() && ids[k] == id;
                        assert(grants[k].item_id == id);
                    }
                }
                if due_and_free(items[id], request.now_ms) {
                    assert(claimable(items, id, request.now_ms));
                    assert(all.contains(id));
                    let k = choose|k: int| 0 <= k < all.len() && all[k] == id;
                    if k < ids.len() {
                        assert(ids[k] == id);
                    }
                    assert forall|i: int| 0 <= i < grants.len() implies sooner(
                        (#[trigger] grants[i]).due_at_ms,
                        grants[i].item_id,
                        items[id].due_at_ms->0,
                        id,
                    ) by {
                        assert(due_before(items, all[i], all[k]));
                        assert(grants[i].item_id == ids[i]);
                    }
                }
            }
        },
        Err(_) => {},
    }
}

/// One thing asked of the items.
pub enum ActivationStep {
    Wake(WakeView, u64),
    Claim(Seq<char>, RequestView),
    Sweep(RequestView),
    Renew(HandleView, u64, u64),
    Release(HandleView, ActivationDisposition, u64),
    Purge(u64),
}

/// The items after a step.
pub open spec fn after_step(items: Items, step: ActivationStep) -> Items {
    match step {
        ActivationStep::Wake(wake, now_ms) => wake_on(items, wake, now_ms).1,
        ActivationStep::Claim(id, request) => claim_on(items, id, request).1,
        ActivationStep::Sweep(request) => sweep_on(items, request).1,
        ActivationStep::Renew(handle, lease_ms, now_ms) => renew_on(
            items,
            handle,
            lease_ms,
            now_ms,
        ).1,
        ActivationStep::Release(handle, disposition, now_ms) => release_on(
            items,
            handle,
            disposition,
            now_ms,
        ).1,
        ActivationStep::Purge(settled_before_ms) => kept_on(items, settled_before_ms),
    }
}

/// The items after steps taken one after another, from none.
pub open spec fn after_steps(steps: Seq<ActivationStep>) -> Items
    decreases steps.len(),
{
    if steps.len() == 0 {
        Map::empty()
    } else {
        after_step(after_steps(steps.drop_last()), steps.last())
    }
}

/// Whether a step is a wake that registers or reschedules an item.
pub open spec fn wakes(steps: Seq<ActivationStep>, k: int, id: Seq<char>) -> bool {
    steps[k] matches ActivationStep::Wake(wake, now_ms) && wake.item_id == id && {
        let answer = wake_on(after_steps(steps.take(k)), wake, now_ms).0;
        (answer matches Ok(ActivationWakeOutcome::Registered)) || (answer matches Ok(
            ActivationWakeOutcome::Rescheduled,
        ))
    }
}

/// Whether a step is the last wake that registers or reschedules an item.
pub open spec fn last_wakes(steps: Seq<ActivationStep>, k: int, id: Seq<char>) -> bool {
    &&& 0 <= k < steps.len()
    &&& wakes(steps, k, id)
    &&& forall|later: int| k < later < steps.len() ==> !#[trigger] wakes(steps, later, id)
}

proof fn lemma_step_keeps(items: Items, step: ActivationStep, id: Seq<char>)
    requires
        items.dom().finite(),
        after_step(items, step).dom().contains(id),
        !(step matches ActivationStep::Wake(wake, now_ms) && wake.item_id == id && ((wake_on(
            items,
            wake,
            now_ms,
        ).0 matches Ok(ActivationWakeOutcome::Registered)) || (wake_on(
            items,
            wake,
            now_ms,
        ).0 matches Ok(ActivationWakeOutcome::Rescheduled)))),
    ensures
        items.dom().contains(id),
        after_step(items, step)[id].payload == items[id].payload,
{
    match step {
        ActivationStep::Sweep(request) => {
            let ids = first_n(due_ids(items, request.now_ms), request.limit);
            lemma_swept_once(items, request);
            lemma_grants_each(items, ids, request);
            lemma_grants_keep(items, ids, request, id);
        },
        ActivationStep::Wake(wake, now_ms) => {
            law_wakes_set_what_they_carry(items, wake, now_ms);
        },
        _ => {},
    }
}

proof fn lemma_steps_keyed(steps: Seq<ActivationStep>)
    ensures
        after_steps(steps).dom().finite(),
        forall|id: Seq<char>| #[trigger]
            after_steps(steps).dom().contains(id) ==> after_steps(steps)[id].item_id == id,
    decreases steps.len(),
{
    if steps.len() > 0 {
        let items = after_steps(steps.drop_last());
        lemma_steps_keyed(steps.drop_last());
        match steps.last() {
            ActivationStep::Sweep(request) => {
                let ids = first_n(due_ids(items, request.now_ms), request.limit);
                lemma_swept_once(items, request);
                lemma_grants_each(items, ids, request);
                assert forall|id: Seq<char>| #[trigger]
                    after_steps(steps).dom().contains(id) implies after_steps(steps)[id].item_id
                    == id by {
                    assert(items.dom().contains(id));
                    lemma_grants_keep(items, ids, request, id);
                }
            },
            ActivationStep::Purge(settled_before_ms) => {
                assert(kept_on(items, settled_before_ms).dom().subset_of(items.dom()));
                vstd::set_lib::lemma_set_subset_finite(
                    items.dom(),
                    kept_on(items, settled_before_ms).dom(),
                );
            },
            _ => {},
        }
    }
}

proof fn lemma_wakes_before(steps: Seq<ActivationStep>, k: int, id: Seq<char>)
    requires
        0 <= k < steps.len() - 1,
    ensures
        wakes(steps, k, id) == wakes(steps.drop_last(), k, id),
{
    assert(steps.drop_last().take(k) =~= steps.take(k));
}

/// Whatever was asked of the items, and in whatever order: an item that is there was woken, and
/// its payload is that of the last wake that registered or rescheduled it. So the payload of every
/// grant, by name or by sweep, is the one that this wake attached.
pub proof fn law_grants_hand_back_the_last_payload(
    steps: Seq<ActivationStep>,
    id: Seq<char>,
    request: RequestView,
)
    requires
        after_steps(steps).dom().contains(id),
    ensures
        exists|k: int| #[trigger]
            last_wakes(steps, k, id) && steps[k]->Wake_0.payload == after_steps(steps)[id].payload,
        claim_on(after_steps(steps), id, request).0 matches Ok(ClaimView::Granted(grant))
            ==> exists|k: int| #[trigger]
            last_wakes(steps, k, id) && steps[k]->Wake_0.payload == grant.payload,
        sweep_on(after_steps(steps), request).0 matches Ok(grants) ==> forall|i: int|
            0 <= i < grants.len() && (#[trigger] grants[i]).item_id == id ==> exists|k: int|
                #[trigger]
                last_wakes(steps, k, id) && steps[k]->Wake_0.payload == grants[i].payload,
    decreases steps.len(),
{
    let n = steps.len() - 1;
    let head = steps.drop_last();
    let items = after_steps(head);
    assert(steps.take(n) =~= head);
    lemma_steps_keyed(head);
    if wakes(steps, n, id) {
        law_wakes_set_what_they_carry(items, steps[n]->Wake_0, steps[n]->Wake_1);
        assert(last_wakes(steps, n, id));
    } else {
        lemma_step_keeps(items, steps.last(), id);
        law_grants_hand_back_the_last_payload(head, id, request);
        let k = choose|k: int| #[trigger]
            last_wakes(head, k, id) && head[k]->Wake_0.payload == items[id].payload;
        lemma_wakes_before(steps, k, id);
        assert forall|later: int| k < later < steps.len() implies !#[trigger] wakes(
            steps,
            later,
            id,
        ) by {
            if later < n {
                lemma_wakes_before(steps, later, id);
            }
        }
        assert(last_wakes(steps, k, id));
    }
    let now = after_steps(steps);
    let ids = first_n(due_ids(now, request.now_ms), request.limit);
    lemma_steps_keyed(steps);
    lemma_swept_once(now, request);
    lemma_grants_each(now, ids, request);
    if let Ok(grants) = sweep_on(now, request).0 {
        assert forall|i: int|
            0 <= i < grants.len() && (#[trigger] grants[i]).item_id == id implies grants[i].payload
            == now[id].payload by {
            assert(claimable(now, ids[i], request.now_ms));
            assert(now.dom().contains(ids[i]));
        }
    }
}

/// A request is in order exactly where its lease is above zero and within the contract, its batch
/// too, and its lease ends within the clock.
pub proof fn law_requests_are_within_the_contract(now_ms: u64, lease_ms: u64, limit: usize)
    ensures
        request_fault(now_ms, lease_ms, limit) is None <==> {
            &&& 0 < lease_ms <= MAX_ACTIVATION_LEASE_MS
            &&& 0 < limit <= MAX_ACTIVATION_CLAIM_BATCH
            &&& now_ms + lease_ms <= u64::MAX
        },
{
}

/// A stored item is accepted exactly where its payload is within the bound, its identities are in
/// order, neither its lease nor its settlement has a token that it never gave, and it is not both
/// due and settled.
pub proof fn law_items_are_accepted_when_sound(item: ItemView)
    ensures
        item_fault(item) is None <==> {
            &&& item.payload.len() <= MAX_ACTIVATION_PAYLOAD_BYTES
            &&& item_id_fault(item.item_id) is None
            &&& item.lease matches Some(lease) ==> worker_id_fault(lease.worker_id) is None
                && lease.token <= item.fencing_token
            &&& item.settled_token matches Some(token) ==> token <= item.fencing_token
            &&& item.due_at_ms is None || item.settled_at_ms is None
        },
{
}

/// A row that is accepted has no number below zero and the payload size that it declares, and its
/// item holds each column as it stands; it holds a lease exactly where all three columns of one are
/// there.
pub proof fn law_rows_tell_their_item(row: RowView)
    requires
        row_fault(row) is None,
    ensures
        ({
            let item = row.item();
            &&& row.payload_size == row.payload.len()
            &&& item.item_id == row.item_id
            &&& item.payload == row.payload
            &&& item.attempt == row.attempt
            &&& item.fencing_token == row.fencing_token
            &&& item.due_at_ms is Some <==> row.due_at_ms is Some
            &&& row.due_at_ms matches Some(n) ==> item.due_at_ms->0 == n
            &&& item.settled_at_ms is Some <==> row.settled_at_ms is Some
            &&& row.settled_at_ms matches Some(n) ==> item.settled_at_ms->0 == n
            &&& item.settled_token is Some <==> row.settled_token is Some
            &&& row.settled_token matches Some(n) ==> item.settled_token->0 == n
            &&& item.lease is Some <==> row.lease_worker is Some && row.lease_token is Some
                && row.lease_expires_at_ms is Some
            &&& item.lease matches Some(lease) ==> {
                &&& row.lease_worker == Some(lease.worker_id)
                &&& lease.token == row.lease_token->0
                &&& lease.expires_at_ms == row.lease_expires_at_ms->0
            }
        }),
{
}

/// Retention keeps an item unless it was settled by the given instant, is due no more and is held
/// by no lease; what it keeps stays as it is, and it adds nothing.
pub proof fn law_retention_keeps_unsettled_work(items: Items, before_ms: u64, id: Seq<char>)
    ensures
        ({
            let after = kept_on(items, before_ms);
            let item = items[id];
            let rests = item.settled_at_ms is Some && item.settled_at_ms->0 <= before_ms
                && item.due_at_ms is None && item.lease is None;
            &&& after.dom().contains(id) <==> items.dom().contains(id) && !rests
            &&& after.dom().contains(id) ==> after[id] == item
        }),
{
}

/// What is told of an item is what is stored of it, and it is claimable exactly where it is due and
/// free.
pub proof fn law_states_tell_what_is_stored(items: Items, id: Seq<char>, now_ms: u64)
    ensures
        inspect_on(items, id) is Some <==> items.dom().contains(id),
        inspect_on(items, id) matches Some(state) ==> {
            let item = items[id];
            &&& state.item_id == item.item_id
            &&& state.due_at_ms == item.due_at_ms
            &&& state.payload == item.payload
            &&& state.attempt == item.attempt
            &&& state.fencing_token == item.fencing_token
            &&& state.lease == item.lease
            &&& state.settled_at_ms == item.settled_at_ms
            &&& state.claimable_at(now_ms) <==> due_and_free(item, now_ms)
        },
{
}

} // verus!
