//! The script of the conformance suite: what it asks of an authority, one call at a time, and how
//! it judges each answer by itself and by the answers before it.

use crate::activation::book::ActivationCall;
use crate::activation::shown::{claim_words, comma_ids};
use crate::activation::{
    ActivationDisposition, ActivationFault, ActivationRenewal, ActivationSettlement,
    ActivationWakeOutcome, ClaimView, GrantView, HandleView, ItemStateView, RequestView, WakeView,
    MAX_ACTIVATION_LEASE_MS,
};
use crate::conformance::{first_flaw, judged, refused, silent_step, Judgement};
use crate::session_state::ConformanceOpen;
use crate::text::decimal;
use vstd::prelude::*;
use vstd::utf8::encode_utf8;

verus! {

/// The instant that the suite's clock starts from.
pub const BASE_MS: u64 = 1_700_000_000_000;

/// A fault that the suite finds.
pub open spec fn suite_fault(words: Seq<char>) -> ActivationFault {
    ActivationFault::Corrupt("conformance: "@ + words)
}

/// The fault of an answer that has to be good.
pub open spec fn flaw_unless(good: bool, words: Seq<char>) -> Option<ActivationFault> {
    if good {
        None
    } else {
        Some(suite_fault(words))
    }
}

pub open spec fn open_step(call: ActivationCall, phase: ConformanceOpen) -> Judgement<ActivationFault> {
    match call {
        ActivationCall::Open(p, a) => judged(p == phase, a, None),
        _ => Judgement::Stray,
    }
}

pub open spec fn wake_step(
    call: ActivationCall,
    wake: WakeView,
    now_ms: u64,
    flaw: Option<ActivationFault>,
) -> Judgement<ActivationFault> {
    match call {
        ActivationCall::Wake(w, n, a) => judged(w == wake && n == now_ms, a, flaw),
        _ => Judgement::Stray,
    }
}

pub open spec fn due_step(
    call: ActivationCall,
    request: RequestView,
    flaw: Option<ActivationFault>,
) -> Judgement<ActivationFault> {
    match call {
        ActivationCall::ClaimDue(q, a) => judged(q == request, a, flaw),
        _ => Judgement::Stray,
    }
}

pub open spec fn claim_step(
    call: ActivationCall,
    id: Seq<char>,
    request: RequestView,
    flaw: Option<ActivationFault>,
) -> Judgement<ActivationFault> {
    match call {
        ActivationCall::ClaimItem(i, q, a) => judged(i == id && q == request, a, flaw),
        _ => Judgement::Stray,
    }
}

pub open spec fn renew_step(
    call: ActivationCall,
    handle: HandleView,
    lease_ms: u64,
    now_ms: u64,
    flaw: Option<ActivationFault>,
) -> Judgement<ActivationFault> {
    match call {
        ActivationCall::Renew(h, l, n, a) => judged(
            h == handle && l == lease_ms && n == now_ms,
            a,
            flaw,
        ),
        _ => Judgement::Stray,
    }
}

/// A renewal that has to be refused.
pub open spec fn refused_step(
    call: ActivationCall,
    handle: HandleView,
    lease_ms: u64,
    now_ms: u64,
    words: Seq<char>,
) -> Judgement<ActivationFault> {
    match call {
        ActivationCall::Renew(h, l, n, a) => refused(
            h == handle && l == lease_ms && n == now_ms,
            a,
            suite_fault(words),
        ),
        _ => Judgement::Stray,
    }
}

pub open spec fn release_step(
    call: ActivationCall,
    handle: HandleView,
    disposition: ActivationDisposition,
    now_ms: u64,
    flaw: Option<ActivationFault>,
) -> Judgement<ActivationFault> {
    match call {
        ActivationCall::Release(h, d, n, a) => judged(
            h == handle && d == disposition && n == now_ms,
            a,
            flaw,
        ),
        _ => Judgement::Stray,
    }
}

pub open spec fn inspect_step(
    call: ActivationCall,
    id: Seq<char>,
    flaw: Option<ActivationFault>,
) -> Judgement<ActivationFault> {
    match call {
        ActivationCall::Inspect(i, a) => judged(i == id, a, flaw),
        _ => Judgement::Stray,
    }
}

pub open spec fn purge_step(
    call: ActivationCall,
    before_ms: u64,
    flaw: Option<ActivationFault>,
) -> Judgement<ActivationFault> {
    match call {
        ActivationCall::Purge(b, a) => judged(b == before_ms, a, flaw),
        _ => Judgement::Stray,
    }
}

/// What a wake was answered.
pub open spec fn woken(call: ActivationCall) -> ActivationWakeOutcome {
    call->Wake_2->Ok_0
}

/// What a sweep was answered.
pub open spec fn swept_up(call: ActivationCall) -> Seq<GrantView> {
    call->ClaimDue_1->Ok_0
}

/// What a claim was answered.
pub open spec fn claimed(call: ActivationCall) -> ClaimView {
    call->ClaimItem_2->Ok_0
}

/// What a renewal was answered.
pub open spec fn renewed(call: ActivationCall) -> ActivationRenewal {
    call->Renew_3->Ok_0
}

/// What a release was answered.
pub open spec fn released(call: ActivationCall) -> ActivationSettlement {
    call->Release_3->Ok_0
}

/// What an inspection was answered.
pub open spec fn inspected(call: ActivationCall) -> Option<ItemStateView> {
    call->Inspect_1->Ok_0
}

/// What a purge was answered.
pub open spec fn purged(call: ActivationCall) -> usize {
    call->Purge_1->Ok_0
}

/// A claim request.
pub open spec fn asks(worker: Seq<char>, now_ms: int, lease_ms: u64, limit: usize) -> RequestView {
    RequestView { worker_id: worker, now_ms: now_ms as u64, lease_ms, limit }
}

/// A wake.
pub open spec fn wakes(id: Seq<char>, due: int, payload: Seq<u8>) -> WakeView {
    WakeView { item_id: id, due_at_ms: due as u64, payload }
}

/// The fault of a claim that has to be granted.
pub open spec fn grant_missing(claim: ClaimView, words: Seq<char>) -> Option<ActivationFault> {
    match claim {
        ClaimView::Granted(_) => None,
        _ => Some(suite_fault(words + ": answered "@ + claim_words(claim))),
    }
}

/// The words for a number of grants of one item.
pub open spec fn contended_words(n: nat) -> Seq<char> {
    "two supervisors took "@ + decimal(
        if n <= usize::MAX {
            n
        } else {
            usize::MAX as nat
        },
    ) + " grants of one due work item; exactly one may execute"@
}

/// The fault of two sweeps for one due item: between them they have to be granted it once.
pub open spec fn contention_flaw(first: Seq<GrantView>, second: Seq<GrantView>) -> Option<
    ActivationFault,
> {
    flaw_unless(
        first.len() + second.len() == 1,
        contended_words(first.len() + second.len()),
    )
}

/// The fault of a grant that has to describe the item as it is due.
pub open spec fn grant_flaw(
    grant: GrantView,
    id: Seq<char>,
    holder: Seq<char>,
    payload: Seq<u8>,
    due: u64,
) -> Option<ActivationFault> {
    first_flaw(
        flaw_unless(
            grant.item_id == id && grant.worker_id == holder && grant.due_at_ms == due
                && grant.attempt == 1 && grant.payload == payload && grant.expires_at_ms == due
                + 1_000,
            "a grant did not describe the work item it granted"@,
        ),
        flaw_unless(
            grant.token > 0,
            "a grant minted a fencing token that cannot fence anything"@,
        ),
    )
}

/// The fault of a claim that has to be refused with who holds the item.
pub open spec fn refusal_flaw(claim: ClaimView, holder: Seq<char>, expires_at: u64) -> Option<
    ActivationFault,
> {
    match claim {
        ClaimView::Held { worker_id, expires_at_ms } => flaw_unless(
            worker_id == holder && expires_at_ms == expires_at,
            "a refused claim misreported who holds the work item"@,
        ),
        _ => Some(
            suite_fault(
                "claiming an item under a live lease answered "@ + claim_words(claim)
                    + " rather than a refusal"@,
            ),
        ),
    }
}

/// The fault of a completed item's state.
pub open spec fn settled_flaw(state: Option<ItemStateView>, at: u64, token: u64) -> Option<
    ActivationFault,
> {
    match state {
        None => Some(suite_fault("a completed item vanished"@)),
        Some(s) => flaw_unless(
            s.due_at_ms is None && s.lease is None && s.settled_at_ms == Some(at) && s.attempt == 1
                && s.fencing_token == token,
            "a completed item did not record its own settlement"@,
        ),
    }
}

/// The fault of a sweep that has to find two items in due order.
pub open spec fn order_flaw(
    sweep: Seq<GrantView>,
    first: Seq<char>,
    second: Seq<char>,
    by_ms: u64,
) -> Option<ActivationFault> {
    first_flaw(
        flaw_unless(
            sweep.len() == 2 && sweep[0].item_id == first && sweep[1].item_id == second,
            "a due sweep answered ["@ + comma_ids(sweep)
                + "] rather than the due items in due order"@,
        ),
        flaw_unless(
            sweep[0].due_at_ms <= by_ms && sweep[1].due_at_ms <= by_ms,
            "a due sweep returned work before its time"@,
        ),
    )
}

/// The fault of a sweep that has to find one item alone.
pub open spec fn single_flaw(sweep: Seq<GrantView>, id: Seq<char>, words: Seq<char>) -> Option<
    ActivationFault,
> {
    flaw_unless(sweep.len() == 1 && sweep[0].item_id == id, words)
}

/// An unknown identity is answered, never invented.
pub open spec fn unknown_step(
    log: Seq<ActivationCall>,
    at: int,
    i: int,
    alpha: Seq<char>,
    worker: Seq<char>,
) -> Judgement<ActivationFault> {
    if i == 0 {
        inspect_step(
            log[at],
            alpha,
            flaw_unless(
                inspected(log[at]) is None,
                "a fresh authority already knows a work item"@,
            ),
        )
    } else if i == 1 {
        claim_step(
            log[at + 1],
            alpha,
            asks(worker, BASE_MS as int, 1_000, 8),
            flaw_unless(
                claimed(log[at + 1]) is Unknown,
                "claiming an unknown work item was not refused as unknown"@,
            ),
        )
    } else {
        due_step(
            log[at + 2],
            asks(worker, BASE_MS as int, 1_000, 8),
            flaw_unless(
                swept_up(log[at + 2]).len() == 0,
                "a fresh authority granted work that was never scheduled"@,
            ),
        )
    }
}

/// Waking is idempotent by identity, and nothing is granted before its time.
pub open spec fn waking_step(
    log: Seq<ActivationCall>,
    at: int,
    i: int,
    alpha: Seq<char>,
    worker: Seq<char>,
    payload: Seq<u8>,
    due: u64,
) -> Judgement<ActivationFault> {
    if i == 0 {
        wake_step(
            log[at],
            wakes(alpha, due as int, payload),
            BASE_MS,
            flaw_unless(
                woken(log[at]) is Registered,
                "the first wake of an identity was not a registration"@,
            ),
        )
    } else if i == 1 {
        wake_step(
            log[at + 1],
            wakes(alpha, due as int, payload),
            BASE_MS,
            flaw_unless(
                woken(log[at + 1]) is Unchanged,
                "a duplicate wake was treated as new work"@,
            ),
        )
    } else if i == 2 {
        wake_step(
            log[at + 2],
            wakes(alpha, due + 50, payload),
            BASE_MS,
            flaw_unless(
                woken(log[at + 2]) is Rescheduled,
                "moving a due time was not reported as a reschedule"@,
            ),
        )
    } else if i == 3 {
        wake_step(
            log[at + 3],
            wakes(alpha, due as int, payload),
            BASE_MS,
            flaw_unless(
                woken(log[at + 3]) is Rescheduled,
                "moving a due time back was not reported as a reschedule"@,
            ),
        )
    } else if i == 4 {
        claim_step(
            log[at + 4],
            alpha,
            asks(worker, due - 1, 1_000, 8),
            flaw_unless(
                claimed(log[at + 4]) == (ClaimView::NotDue { due_at_ms: due }),
                "a work item was claimable before it was due"@,
            ),
        )
    } else {
        due_step(
            log[at + 5],
            asks(worker, due - 1, 1_000, 8),
            flaw_unless(
                swept_up(log[at + 5]).len() == 0,
                "a sweep before the due time returned work"@,
            ),
        )
    }
}

/// Whether the first of two supervisors got the item that both swept for.
pub open spec fn first_won(log: Seq<ActivationCall>, at: int) -> bool {
    swept_up(log[at + 2]).len() == 1
}

/// The one grant of the item that two supervisors swept for.
pub open spec fn contended_grant(log: Seq<ActivationCall>, at: int) -> GrantView {
    if first_won(log, at) {
        swept_up(log[at + 2])[0]
    } else {
        swept_up(log[at + 4])[0]
    }
}

/// Two supervisors sweep the same instant through two handles, and exactly one may execute; the
/// other is told why.
pub open spec fn contention_step(
    log: Seq<ActivationCall>,
    at: int,
    i: int,
    alpha: Seq<char>,
    worker_a: Seq<char>,
    worker_b: Seq<char>,
    payload: Seq<u8>,
    due: u64,
) -> Judgement<ActivationFault> {
    let grant = contended_grant(log, at);
    let (holder, loser) = if first_won(log, at) {
        (worker_a, worker_b)
    } else {
        (worker_b, worker_a)
    };
    if i == 0 {
        open_step(log[at], ConformanceOpen::Concurrent)
    } else if i == 1 {
        silent_step(log[at + 1], ActivationCall::Through(ConformanceOpen::Fresh))
    } else if i == 2 {
        due_step(log[at + 2], asks(worker_a, due as int, 1_000, 8), None)
    } else if i == 3 {
        silent_step(log[at + 3], ActivationCall::Through(ConformanceOpen::Concurrent))
    } else if i == 4 {
        due_step(
            log[at + 4],
            asks(worker_b, due as int, 1_000, 8),
            first_flaw(
                contention_flaw(swept_up(log[at + 2]), swept_up(log[at + 4])),
                grant_flaw(grant, alpha, holder, payload, due),
            ),
        )
    } else if i == 5 {
        claim_step(
            log[at + 5],
            alpha,
            asks(loser, due as int, 1_000, 8),
            refusal_flaw(claimed(log[at + 5]), holder, grant.expires_at_ms),
        )
    } else {
        silent_step(log[at + 6], ActivationCall::Through(ConformanceOpen::Fresh))
    }
}

/// Only the holder may extend or complete, and completion is idempotent.
pub open spec fn fences_step(
    log: Seq<ActivationCall>,
    at: int,
    i: int,
    alpha: Seq<char>,
    worker_b: Seq<char>,
    loser: Seq<char>,
    grant: GrantView,
    due: u64,
) -> Judgement<ActivationFault> {
    let handle = grant.handle();
    let foreign = HandleView { item_id: alpha, worker_id: loser, token: grant.token };
    if i == 0 {
        renew_step(
            log[at],
            handle,
            2_000,
            (due + 500) as u64,
            flaw_unless(
                renewed(log[at]) == (ActivationRenewal::Renewed {
                    expires_at_ms: (due + 2_500) as u64,
                }),
                "the holder could not extend its own lease"@,
            ),
        )
    } else if i == 1 {
        silent_step(log[at + 1], ActivationCall::Through(ConformanceOpen::Concurrent))
    } else if i == 2 {
        renew_step(
            log[at + 2],
            foreign,
            2_000,
            (due + 600) as u64,
            flaw_unless(
                renewed(log[at + 2]) is Fenced,
                "a worker that never held the item was allowed to renew it"@,
            ),
        )
    } else if i == 3 {
        release_step(
            log[at + 3],
            foreign,
            ActivationDisposition::Complete,
            (due + 600) as u64,
            flaw_unless(
                released(log[at + 3]) is Fenced,
                "a worker that never held the item was allowed to complete it"@,
            ),
        )
    } else if i == 4 {
        silent_step(log[at + 4], ActivationCall::Through(ConformanceOpen::Fresh))
    } else if i == 5 {
        release_step(
            log[at + 5],
            handle,
            ActivationDisposition::Complete,
            (due + 700) as u64,
            flaw_unless(
                released(log[at + 5]) is Settled,
                "the holder could not complete its own work item"@,
            ),
        )
    } else if i == 6 {
        release_step(
            log[at + 6],
            handle,
            ActivationDisposition::Complete,
            (due + 701) as u64,
            flaw_unless(
                released(log[at + 6]) is AlreadySettled,
                "a retried completion was not answered as already settled"@,
            ),
        )
    } else if i == 7 {
        silent_step(log[at + 7], ActivationCall::Through(ConformanceOpen::Concurrent))
    } else if i == 8 {
        release_step(
            log[at + 8],
            handle,
            ActivationDisposition::Complete,
            (due + 702) as u64,
            flaw_unless(
                released(log[at + 8]) is AlreadySettled,
                "a retried completion through another handle was not answered as already settled"@,
            ),
        )
    } else if i == 9 {
        silent_step(log[at + 9], ActivationCall::Through(ConformanceOpen::Fresh))
    } else if i == 10 {
        claim_step(
            log[at + 10],
            alpha,
            asks(worker_b, due + 703, 1_000, 8),
            flaw_unless(
                claimed(log[at + 10]) is Settled,
                "a completed work item was still claimable"@,
            ),
        )
    } else {
        inspect_step(
            log[at + 11],
            alpha,
            settled_flaw(inspected(log[at + 11]), (due + 700) as u64, grant.token),
        )
    }
}

/// Due work surfaces oldest first, ties broken by identity, and never early.
pub open spec fn ordering_step(
    log: Seq<ActivationCall>,
    at: int,
    i: int,
    worker: Seq<char>,
    beta: Seq<char>,
    delta: Seq<char>,
    gamma: Seq<char>,
) -> Judgement<ActivationFault> {
    let none = Seq::<u8>::empty();
    let done = ActivationDisposition::Complete;
    let end_ms = (BASE_MS + 700) as u64;
    if i == 0 {
        wake_step(log[at], wakes(gamma, BASE_MS + 500, none), BASE_MS, None)
    } else if i == 1 {
        wake_step(log[at + 1], wakes(delta, BASE_MS + 300, none), BASE_MS, None)
    } else if i == 2 {
        wake_step(log[at + 2], wakes(beta, BASE_MS + 300, none), BASE_MS, None)
    } else if i == 3 {
        due_step(
            log[at + 3],
            asks(worker, BASE_MS + 400, 1_000, 8),
            order_flaw(swept_up(log[at + 3]), beta, delta, (BASE_MS + 400) as u64),
        )
    } else if i == 4 {
        due_step(
            log[at + 4],
            asks(worker, BASE_MS + 600, 1_000, 8),
            single_flaw(
                swept_up(log[at + 4]),
                gamma,
                "a later sweep did not surface the work that had since come due"@,
            ),
        )
    } else if i == 5 {
        release_step(log[at + 5], swept_up(log[at + 3])[0].handle(), done, end_ms, None)
    } else if i == 6 {
        release_step(log[at + 6], swept_up(log[at + 3])[1].handle(), done, end_ms, None)
    } else if i == 7 {
        release_step(log[at + 7], swept_up(log[at + 4])[0].handle(), done, end_ms, None)
    } else if i == 8 {
        wake_step(log[at + 8], wakes(beta, BASE_MS + 300, none), BASE_MS, None)
    } else if i == 9 {
        wake_step(log[at + 9], wakes(delta, BASE_MS + 200, none), BASE_MS, None)
    } else if i == 10 {
        due_step(
            log[at + 10],
            asks(worker, BASE_MS + 400, 1_000, 1),
            single_flaw(
                swept_up(log[at + 10]),
                delta,
                "a bounded sweep did not take the oldest due work first"@,
            ),
        )
    } else if i == 11 {
        release_step(log[at + 11], swept_up(log[at + 10])[0].handle(), done, end_ms, None)
    } else if i == 12 {
        due_step(
            log[at + 12],
            asks(worker, BASE_MS + 400, 1_000, 8),
            single_flaw(
                swept_up(log[at + 12]),
                beta,
                "a bounded sweep left the remaining due work unreachable"@,
            ),
        )
    } else {
        release_step(log[at + 13], swept_up(log[at + 12])[0].handle(), done, end_ms, None)
    }
}

/// A worker that stops without releasing loses the item at expiry, and the successor's claim
/// advances the token that invalidates it.
pub open spec fn expiry_step(
    log: Seq<ActivationCall>,
    at: int,
    i: int,
    epsilon: Seq<char>,
    crashed: Seq<char>,
    successor: Seq<char>,
) -> Judgement<ActivationFault> {
    let lost = claimed(log[at + 1])->Granted_0;
    let taken = claimed(log[at + 4])->Granted_0;
    if i == 0 {
        wake_step(log[at], wakes(epsilon, BASE_MS + 800, Seq::empty()), BASE_MS, None)
    } else if i == 1 {
        claim_step(
            log[at + 1],
            epsilon,
            asks(crashed, BASE_MS + 800, 50, 8),
            grant_missing(
                claimed(log[at + 1]),
                "a due item was not granted to the first worker"@,
            ),
        )
    } else if i == 2 {
        silent_step(log[at + 2], ActivationCall::Through(ConformanceOpen::Concurrent))
    } else if i == 3 {
        claim_step(
            log[at + 3],
            epsilon,
            asks(successor, BASE_MS + 820, 1_000, 8),
            flaw_unless(
                claimed(log[at + 3]) is Held,
                "a live lease was taken over before it expired"@,
            ),
        )
    } else if i == 4 {
        claim_step(
            log[at + 4],
            epsilon,
            asks(successor, BASE_MS + 900, 1_000, 8),
            first_flaw(
                grant_missing(
                    claimed(log[at + 4]),
                    "an expired lease did not make the work item claimable again"@,
                ),
                flaw_unless(
                    taken.token > lost.token && taken.attempt == 2,
                    "reclaiming an expired lease did not advance the fencing token"@,
                ),
            ),
        )
    } else if i == 5 {
        silent_step(log[at + 5], ActivationCall::Through(ConformanceOpen::Fresh))
    } else if i == 6 {
        renew_step(
            log[at + 6],
            lost.handle(),
            1_000,
            (BASE_MS + 901) as u64,
            flaw_unless(
                renewed(log[at + 6]) is Fenced,
                "a superseded worker was allowed to renew"@,
            ),
        )
    } else if i == 7 {
        release_step(
            log[at + 7],
            lost.handle(),
            ActivationDisposition::Complete,
            (BASE_MS + 902) as u64,
            flaw_unless(
                released(log[at + 7]) is Fenced,
                "a superseded worker was allowed to record an outcome"@,
            ),
        )
    } else if i == 8 {
        inspect_step(
            log[at + 8],
            epsilon,
            flaw_unless(
                inspected(log[at + 8]) matches Some(s) && s.settled_at_ms is None && s.lease is Some,
                "a refused settlement still changed the work item"@,
            ),
        )
    } else if i == 9 {
        silent_step(log[at + 9], ActivationCall::Through(ConformanceOpen::Concurrent))
    } else if i == 10 {
        release_step(
            log[at + 10],
            taken.handle(),
            ActivationDisposition::Complete,
            (BASE_MS + 903) as u64,
            flaw_unless(
                released(log[at + 10]) is Settled,
                "the successor could not complete the work it took over"@,
            ),
        )
    } else {
        silent_step(log[at + 11], ActivationCall::Through(ConformanceOpen::Fresh))
    }
}

/// A live lease is the worker's to settle; a yielded item returns when it asked to. A lease
/// bound is the contract's.
pub open spec fn yield_step(
    log: Seq<ActivationCall>,
    at: int,
    i: int,
    zeta: Seq<char>,
    worker: Seq<char>,
) -> Judgement<ActivationFault> {
    let held = claimed(log[at + 1])->Granted_0;
    if i == 0 {
        wake_step(log[at], wakes(zeta, BASE_MS + 900, Seq::empty()), BASE_MS, None)
    } else if i == 1 {
        claim_step(
            log[at + 1],
            zeta,
            asks(worker, BASE_MS + 900, 5_000, 8),
            grant_missing(claimed(log[at + 1]), "a due item was not granted"@),
        )
    } else if i == 2 {
        wake_step(
            log[at + 2],
            wakes(zeta, BASE_MS + 950, Seq::empty()),
            (BASE_MS + 901) as u64,
            flaw_unless(
                woken(log[at + 2]) is Held,
                "a work item under a live lease was rescheduled behind its worker's back"@,
            ),
        )
    } else if i == 3 {
        release_step(
            log[at + 3],
            held.handle(),
            ActivationDisposition::Yield { due_at_ms: (BASE_MS + 20_000) as u64 },
            (BASE_MS + 902) as u64,
            flaw_unless(
                released(log[at + 3]) is Settled,
                "a holder could not yield its own work item"@,
            ),
        )
    } else if i == 4 {
        release_step(
            log[at + 4],
            held.handle(),
            ActivationDisposition::Yield { due_at_ms: (BASE_MS + 30_000) as u64 },
            (BASE_MS + 903) as u64,
            flaw_unless(
                released(log[at + 4]) is AlreadySettled,
                "a retried yield was not answered as already settled"@,
            ),
        )
    } else if i == 5 {
        claim_step(
            log[at + 5],
            zeta,
            asks(worker, BASE_MS + 1_000, 1_000, 8),
            flaw_unless(
                claimed(log[at + 5]) == (ClaimView::NotDue {
                    due_at_ms: (BASE_MS + 20_000) as u64,
                }),
                "a yielded work item did not return to the queue at the time it asked for"@,
            ),
        )
    } else if i == 6 {
        refused_step(
            log[at + 6],
            held.handle(),
            0,
            (BASE_MS + 1_000) as u64,
            "a renewal outside the published lease bound was accepted"@,
        )
    } else {
        refused_step(
            log[at + 7],
            held.handle(),
            (MAX_ACTIVATION_LEASE_MS + 1) as u64,
            (BASE_MS + 1_000) as u64,
            "a renewal outside the published lease bound was accepted"@,
        )
    }
}

/// A restart keeps every settlement and every fencing counter. The earlier handles are given up
/// before the last one is opened.
pub open spec fn restart_step(
    log: Seq<ActivationCall>,
    at: int,
    i: int,
    alpha: Seq<char>,
    zeta: Seq<char>,
    epsilon: Seq<char>,
    worker_a: Seq<char>,
    worker_b: Seq<char>,
    handle: HandleView,
) -> Judgement<ActivationFault> {
    let resumed = claimed(log[at + 8])->Granted_0;
    if i == 0 {
        inspect_step(log[at], alpha, None)
    } else if i == 1 {
        inspect_step(log[at + 1], zeta, None)
    } else if i == 2 {
        inspect_step(log[at + 2], epsilon, None)
    } else if i == 3 {
        silent_step(log[at + 3], ActivationCall::GiveUp)
    } else if i == 4 {
        open_step(log[at + 4], ConformanceOpen::Reopen)
    } else if i == 5 {
        inspect_step(log[at + 5], alpha, None)
    } else if i == 6 {
        inspect_step(log[at + 6], zeta, None)
    } else if i == 7 {
        inspect_step(
            log[at + 7],
            epsilon,
            flaw_unless(
                inspected(log[at]) == inspected(log[at + 5]) && inspected(log[at + 1])
                    == inspected(log[at + 6]) && inspected(log[at + 2]) == inspected(log[at + 7]),
                "activation state did not survive a restart unchanged"@,
            ),
        )
    } else if i == 8 {
        claim_step(
            log[at + 8],
            alpha,
            asks(worker_a, BASE_MS + 10_000, 1_000, 8),
            first_flaw(
                grant_missing(
                    claimed(log[at + 8]),
                    "a rescheduled item was not claimable after restart"@,
                ),
                flaw_unless(
                    resumed.token > handle.token && resumed.attempt == 2,
                    "a fencing token restarted rather than advanced across a restart"@,
                ),
            ),
        )
    } else if i == 9 {
        release_step(
            log[at + 9],
            handle,
            ActivationDisposition::Complete,
            (BASE_MS + 10_001) as u64,
            flaw_unless(
                released(log[at + 9]) is AlreadySettled,
                "a settlement recorded before a restart was forgotten after it"@,
            ),
        )
    } else if i == 10 {
        release_step(
            log[at + 10],
            HandleView { item_id: alpha, worker_id: worker_b, token: resumed.token },
            ActivationDisposition::Complete,
            (BASE_MS + 10_001) as u64,
            flaw_unless(
                released(log[at + 10]) is Fenced,
                "a worker presenting another worker's live token was allowed to settle"@,
            ),
        )
    } else {
        release_step(
            log[at + 11],
            resumed.handle(),
            ActivationDisposition::Complete,
            (BASE_MS + 10_002) as u64,
            None,
        )
    }
}

/// Retention removes settled work and nothing else.
pub open spec fn retention_step(
    log: Seq<ActivationCall>,
    at: int,
    i: int,
    zeta: Seq<char>,
    epsilon: Seq<char>,
) -> Judgement<ActivationFault> {
    if i == 0 {
        purge_step(
            log[at],
            BASE_MS,
            flaw_unless(
                purged(log[at]) == 0,
                "retention removed work that had not settled by the given instant"@,
            ),
        )
    } else if i == 1 {
        purge_step(
            log[at + 1],
            (BASE_MS + 100_000) as u64,
            flaw_unless(purged(log[at + 1]) >= 2, "retention did not remove settled work"@),
        )
    } else if i == 2 {
        inspect_step(
            log[at + 2],
            epsilon,
            flaw_unless(
                inspected(log[at + 2]) is None,
                "retention did not remove settled work"@,
            ),
        )
    } else {
        inspect_step(
            log[at + 3],
            zeta,
            flaw_unless(
                inspected(log[at + 3]) matches Some(s) && s.due_at_ms == Some(
                    (BASE_MS + 20_000) as u64,
                ) && s.settled_at_ms is None,
                "retention removed work that is still scheduled"@,
            ),
        )
    }
}

/// The identity of one of the suite's items.
pub open spec fn suite_item(name: Seq<char>) -> Seq<char> {
    "conformance."@ + name
}

/// The whole script: how the call at position `i` stands to it.
pub open spec fn suite_step(log: Seq<ActivationCall>, at: int, i: int) -> Judgement<ActivationFault> {
    let alpha = suite_item("alpha"@);
    let zeta = suite_item("zeta"@);
    let epsilon = suite_item("epsilon"@);
    let worker_a = "conformance-worker-a"@;
    let worker_b = "conformance-worker-b"@;
    let payload = encode_utf8("alpha-payload"@);
    let due = (BASE_MS + 100) as u64;
    let grant = contended_grant(log, at + 10);
    let loser = if first_won(log, at + 10) {
        worker_b
    } else {
        worker_a
    };
    if i == 0 {
        open_step(log[at], ConformanceOpen::Fresh)
    } else if i < 4 {
        unknown_step(log, at + 1, i - 1, alpha, worker_a)
    } else if i < 10 {
        waking_step(log, at + 4, i - 4, alpha, worker_a, payload, due)
    } else if i < 17 {
        contention_step(log, at + 10, i - 10, alpha, worker_a, worker_b, payload, due)
    } else if i < 29 {
        fences_step(log, at + 17, i - 17, alpha, worker_b, loser, grant, due)
    } else if i == 29 {
        wake_step(
            log[at + 29],
            wakes(alpha, BASE_MS + 10_000, encode_utf8("alpha-again"@)),
            (due + 704) as u64,
            flaw_unless(
                woken(log[at + 29]) is Rescheduled,
                "waking a settled identity did not reschedule it"@,
            ),
        )
    } else if i < 44 {
        ordering_step(
            log,
            at + 30,
            i - 30,
            worker_a,
            suite_item("ordering-beta"@),
            suite_item("ordering-delta"@),
            suite_item("ordering-gamma"@),
        )
    } else if i < 56 {
        expiry_step(log, at + 44, i - 44, epsilon, worker_a, worker_b)
    } else if i < 64 {
        yield_step(log, at + 56, i - 56, zeta, worker_a)
    } else if i < 76 {
        restart_step(
            log,
            at + 64,
            i - 64,
            alpha,
            zeta,
            epsilon,
            worker_a,
            worker_b,
            grant.handle(),
        )
    } else {
        retention_step(log, at + 76, i - 76, zeta, epsilon)
    }
}

/// The number of calls that the script asks for.
pub open spec fn script_len() -> int {
    80
}

/// Whether what was asked between two moments keeps to the suite's script: every call is the one
/// that the script asks for, every answer but the last is right, and the outcome is success where
/// the whole script was gone through, or else the fault of the last answer.
pub open spec fn suite_walked(
    before: Seq<ActivationCall>,
    after: Seq<ActivationCall>,
    outcome: Option<ActivationFault>,
) -> bool {
    let at = before.len() as int;
    let made = after.len() - at;
    &&& before.is_prefix_of(after)
    &&& forall|i: int| 0 <= i < made - 1 ==> #[trigger] suite_step(after, at, i) is Right
    &&& match outcome {
        None => made == script_len() && suite_step(after, at, made - 1) is Right,
        Some(e) => 0 < made <= script_len() && suite_step(after, at, made - 1)
            == Judgement::Wrong(e),
    }
}

/// Whether the first `k` calls of the script were made, and all of them answered rightly.
pub open spec fn upheld(before: Seq<ActivationCall>, log: Seq<ActivationCall>, k: int) -> bool {
    &&& before.is_prefix_of(log)
    &&& log.len() == before.len() + k
    &&& forall|i: int| 0 <= i < k ==> #[trigger] suite_step(log, before.len() as int, i) is Right
}

/// How a call stands to the script depends on what came before it alone.
#[verifier::spinoff_prover]
#[verifier::rlimit(60)]
proof fn lemma_step_stands(log: Seq<ActivationCall>, now: Seq<ActivationCall>, at: int, i: int)
    requires
        log.is_prefix_of(now),
        0 <= at,
        0 <= i,
        at + i < log.len(),
    ensures
        suite_step(now, at, i) == suite_step(log, at, i),
{
    assert forall|j: int| 0 <= j < log.len() implies now[j] == log[j] by {}
}

/// One part of the script behind what was upheld so far.
pub proof fn lemma_joined(
    before: Seq<ActivationCall>,
    log: Seq<ActivationCall>,
    now: Seq<ActivationCall>,
    k: int,
    n: int,
    outcome: Option<ActivationFault>,
)
    requires
        0 <= k,
        0 < n,
        k + n <= script_len(),
        upheld(before, log, k),
        log.is_prefix_of(now),
        forall|i: int|
            k <= i < now.len() - before.len() - 1 ==> #[trigger] suite_step(
                now,
                before.len() as int,
                i,
            ) is Right,
        match outcome {
            None => now.len() == log.len() + n && suite_step(now, before.len() as int, k + n - 1)
                is Right,
            Some(e) => log.len() < now.len() <= log.len() + n && suite_step(
                now,
                before.len() as int,
                now.len() - before.len() - 1,
            ) == Judgement::Wrong(e),
        },
    ensures
        outcome is None ==> upheld(before, now, k + n),
        outcome is Some || k + n == script_len() ==> suite_walked(before, now, outcome),
{
    let at = before.len() as int;
    assert forall|i: int| 0 <= i < now.len() - at - 1 implies #[trigger] suite_step(now, at, i)
        is Right by {
        if i < k {
            lemma_step_stands(log, now, at, i);
            assert(suite_step(log, at, i) is Right);
        }
    }
}

/// A run of the suite opens one handle for each phase and no more: the fresh one, the concurrent
/// one, and, once both have been given up, the reopened one. A refused opening ends the run with
/// its own fault, so that nothing is opened after it; a run that succeeds has opened all three.
#[verifier::spinoff_prover]
#[verifier::rlimit(60)]
pub proof fn law_suite_opens_each_phase_once(
    before: Seq<ActivationCall>,
    after: Seq<ActivationCall>,
    outcome: Option<ActivationFault>,
)
    requires
        suite_walked(before, after, outcome),
    ensures
        forall|i: int|
            before.len() <= i < after.len() && (#[trigger] after[i]) is Open ==> {
                &&& i == before.len() ==> after[i]->Open_0 is Fresh
                &&& i == before.len() + 10 ==> after[i]->Open_0 is Concurrent
                &&& i == before.len() + 68 ==> after[i]->Open_0 is Reopen && after[i - 1] is GiveUp
                &&& i == before.len() || i == before.len() + 10 || i == before.len() + 68
                &&& after[i]->Open_1 matches Err(e) ==> i == after.len() - 1 && outcome == Some(e)
            },
        outcome is None ==> {
            &&& after.len() == before.len() + script_len()
            &&& after[before.len() as int] is Open
            &&& after[before.len() as int + 10] is Open
            &&& after[before.len() as int + 68] is Open
        },
{
    let at = before.len() as int;
    assert forall|i: int| at <= i < after.len() && (#[trigger] after[i]) is Open implies {
        &&& i == at ==> after[i]->Open_0 is Fresh
        &&& i == at + 10 ==> after[i]->Open_0 is Concurrent
        &&& i == at + 68 ==> after[i]->Open_0 is Reopen && after[i - 1] is GiveUp
        &&& i == at || i == at + 10 || i == at + 68
        &&& after[i]->Open_1 matches Err(e) ==> i == after.len() - 1 && outcome == Some(e)
    } by {
        let step = suite_step(after, at, i - at);
        if i < after.len() - 1 {
            assert(step is Right);
        }
        if i == at + 68 {
            assert(suite_step(after, at, 67) is Right);
        }
    }
    if outcome is None {
        assert(suite_step(after, at, 0) is Right);
        assert(suite_step(after, at, 10) is Right);
        assert(suite_step(after, at, 68) is Right);
    }
}

/// A run of the suite never succeeds where the two supervisors that swept for one due item were
/// granted it twice, or not at all.
pub proof fn law_suite_passes_one_grant_alone(
    before: Seq<ActivationCall>,
    after: Seq<ActivationCall>,
)
    requires
        suite_walked(before, after, None),
    ensures
        ({
            let first = after[before.len() as int + 12];
            let second = after[before.len() as int + 14];
            &&& first is ClaimDue
            &&& second is ClaimDue
            &&& swept_up(first).len() + swept_up(second).len() == 1
        }),
{
    let at = before.len() as int;
    assert(suite_step(after, at, 12) is Right);
    assert(suite_step(after, at, 14) is Right);
}

} // verus!
