//! The conformance suite of activation coordinators.

use crate::activation::book::{
    answered, claimable, due_before, due_listing, grant_all, grant_views, kept_on, lemma_due_ids,
    sweep_on, ActivationBook, ActivationCall, ActivationCoordinator, Items,
};
use crate::activation::item::{honoured, purgeable, storable, ItemView};
use crate::activation::{
    fault, same_bytes, ActivationClaim, ActivationClaimRequest, ActivationDisposition,
    ActivationError, ActivationFault, ActivationFencingToken, ActivationGrant, ActivationHandle,
    ActivationItemId, ActivationItemState, ActivationLeaseState, ActivationRenewal,
    ActivationSettlement, ActivationWake, ActivationWakeOutcome, ActivationWorkerId, GrantView,
    LeaseView, MAX_ACTIVATION_LEASE_MS,
};
use crate::activation::script::{
    asks, contended_grant, contention_flaw, contention_step, due_step, expiry_step, fences_step,
    first_won, flaw_unless, grant_flaw, grant_missing, order_flaw, ordering_step, refusal_flaw,
    release_step, restart_step, retention_step, lemma_joined, settled_flaw, single_flaw,
    suite_fault, suite_item, suite_step, suite_walked, swept_up, unknown_step, waking_step,
    yield_step, BASE_MS,
};
use crate::activation::shown::{show_claim, show_ids};
use crate::conformance::{placed, walked, Judgement};
use crate::session_state::ConformanceOpen;
use crate::text::{has_control, is_trimmed, push_decimal, same_text, text_lt};
use vstd::prelude::*;
use vstd::utf8::{encode_utf8, is_ascii_chars, is_ascii_chars_encode_utf8};

verus! {

/// An authority that a suite reaches through several handles: two that are open at a time, and
/// one that is opened when those have been given up. A lawful authority keeps its items across
/// all of that.
pub trait ActivationAuthority: ActivationCoordinator {
    /// Opens the handle of a phase. The operations that follow go through it.
    fn open(&mut self, phase: ConformanceOpen) -> (r: Result<(), ActivationError>)
        ensures
            final(self).calls() == old(self).calls().push(
                ActivationCall::Open(phase, answered(r)),
            ),
            old(self).lawful() ==> r is Ok && final(self).lawful() && final(self).items()
                == old(self).items(),
    ;

    /// Has the operations that follow go through a handle that is already open.
    fn through(&mut self, phase: ConformanceOpen)
        ensures
            final(self).calls() == old(self).calls().push(ActivationCall::Through(phase)),
            old(self).lawful() ==> final(self).lawful() && final(self).items() == old(
                self,
            ).items(),
    ;

    /// Gives up every open handle.
    fn give_up(&mut self)
        ensures
            final(self).calls() == old(self).calls().push(ActivationCall::GiveUp),
            old(self).lawful() ==> final(self).lawful() && final(self).items() == old(
                self,
            ).items(),
    ;
}

impl ActivationAuthority for ActivationBook {
    fn open(&mut self, phase: ConformanceOpen) -> (r: Result<(), ActivationError>) {
        self.note(Ghost(ActivationCall::Open(phase, Ok(()))));
        Ok(())
    }

    fn through(&mut self, phase: ConformanceOpen) {
        self.note(Ghost(ActivationCall::Through(phase)));
    }

    fn give_up(&mut self) {
        self.note(Ghost(ActivationCall::GiveUp));
    }
}

/// An error of the suite.
fn suite_error(message: &str) -> (r: ActivationError)
    ensures
        r@ == suite_fault(message@),
{
    let mut out = "conformance: ".to_owned();
    out.append(message);
    ActivationError::Corrupt(out)
}

/// Refuses with a message where the condition does not hold.
fn require(condition: bool, message: &str) -> (r: Result<(), ActivationError>)
    ensures
        fault(r) == flaw_unless(condition, message@),
{
    if condition {
        Ok(())
    } else {
        Err(suite_error(message))
    }
}

/// Whether a text is made of visible ASCII characters.
spec fn visible(s: Seq<char>) -> bool {
    forall|i: int| 0 <= i < s.len() ==> '!' <= #[trigger] s[i] <= '~'
}

proof fn lemma_visible_identity(label: Seq<char>, s: Seq<char>, limit: usize)
    requires
        visible(s),
        0 < s.len() <= limit,
    ensures
        crate::activation::identity_fault(label, s, limit) is None,
{
    assert(is_ascii_chars(s));
    is_ascii_chars_encode_utf8(s);
    assert(!has_control(s));
    assert(is_trimmed(s)) by {
        assert('!' <= s[0] <= '~');
        assert('!' <= s[s.len() - 1] <= '~');
    }
}

/// The identity of one of the suite's items.
fn item(name: &str) -> (r: Result<ActivationItemId, ActivationError>)
    ensures
        r matches Ok(id) ==> id@ == "conformance."@ + name@,
        visible(name@) && name@.len() <= 64 ==> r is Ok,
{
    let mut full = "conformance.".to_owned();
    full.append(name);
    proof {
        reveal_strlit("conformance.");
        if visible(name@) && name@.len() <= 64 {
            let s = "conformance."@ + name@;
            assert(visible("conformance."@));
            assert forall|i: int| 0 <= i < s.len() implies '!' <= #[trigger] s[i] <= '~' by {
                if i >= 12 {
                    assert(s[i] == name@[i - 12]);
                } else {
                    assert(s[i] == "conformance."@[i]);
                }
            }
            lemma_visible_identity("work item id"@, s, 256);
        }
    }
    ActivationItemId::new(full.as_str())
}

/// A claim request of the suite.
fn request(worker: &ActivationWorkerId, now_ms: u64, lease_ms: u64, limit: usize) -> (r: Result<
    ActivationClaimRequest,
    ActivationError,
>)
    ensures
        r matches Ok(q) ==> q@ == (crate::activation::RequestView {
            worker_id: worker@,
            now_ms,
            lease_ms,
            limit,
        }),
        crate::activation::request_fault(now_ms, lease_ms, limit) is None ==> r is Ok,
{
    ActivationClaimRequest::new(worker.duplicate(), now_ms, lease_ms, limit)
}

/// The grant of a claim that was answered with one.
pub fn granted(claim: ActivationClaim, message: &str) -> (r: Result<
    ActivationGrant,
    ActivationError,
>)
    ensures
        fault(r) == grant_missing(claim@, message@),
        r matches Ok(grant) ==> claim == ActivationClaim::Granted(grant),
{
    match claim {
        ActivationClaim::Granted(grant) => Ok(grant),
        other => {
            let mut words = message.to_owned();
            words.append(": answered ");
            words.append(show_claim(&other).as_str());
            Err(suite_error(words.as_str()))
        },
    }
}

/// Judges two sweeps for one due item, and tells whether the first of them got it.
pub fn judge_contention(
    first: &Vec<ActivationGrant>,
    second: &Vec<ActivationGrant>,
) -> (r: Result<bool, ActivationError>)
    ensures
        fault(r) == contention_flaw(grant_views(first@), grant_views(second@)),
        r matches Ok(won) ==> first@.len() + second@.len() == 1 && won == (first@.len() == 1),
{
    let total: usize = match first.len().checked_add(second.len()) {
        Some(n) => n,
        None => usize::MAX,
    };
    if total == 1 {
        return Ok(first.len() == 1);
    }
    let mut words = "two supervisors took ".to_owned();
    push_decimal(&mut words, total as u64);
    words.append(" grants of one due work item; exactly one may execute");
    Err(suite_error(words.as_str()))
}

/// Judges a grant that has to describe the item as it is due.
pub fn judge_grant(
    grant: &ActivationGrant,
    id: &ActivationItemId,
    holder: &ActivationWorkerId,
    payload: &Vec<u8>,
    due: u64,
) -> (r: Result<(), ActivationError>)
    ensures
        fault(r) == grant_flaw(grant@, id@, holder@, payload@, due),
{
    let expires = match due.checked_add(1_000) {
        Some(at) => grant.expires_at_ms() == at,
        None => false,
    };
    require(
        same_text(grant.item_id().as_str(), id.as_str()) && grant.worker_id().same(holder)
            && grant.due_at_ms() == due && grant.attempt() == 1 && same_bytes(
            grant.payload(),
            payload,
        ) && expires,
        "a grant did not describe the work item it granted",
    )?;
    require(
        grant.token().get() > 0,
        "a grant minted a fencing token that cannot fence anything",
    )
}

/// Judges a claim that has to be refused with who holds the item.
pub fn judge_refusal(claim: &ActivationClaim, holder: &ActivationWorkerId, expires_at: u64) -> (r:
    Result<(), ActivationError>)
    ensures
        fault(r) == refusal_flaw(claim@, holder@, expires_at),
{
    match claim {
        ActivationClaim::Held { worker_id, expires_at_ms } => require(
            worker_id.same(holder) && *expires_at_ms == expires_at,
            "a refused claim misreported who holds the work item",
        ),
        other => {
            let mut words = "claiming an item under a live lease answered ".to_owned();
            words.append(show_claim(other).as_str());
            words.append(" rather than a refusal");
            Err(suite_error(words.as_str()))
        },
    }
}

/// Judges the state of a completed item.
pub fn judge_settled(
    state: &Option<ActivationItemState>,
    at: u64,
    token: ActivationFencingToken,
) -> (r: Result<(), ActivationError>)
    ensures
        fault(r) == settled_flaw(crate::activation::book::state_option(*state), at, token.0),
{
    match state {
        Some(state) => require(
            state.due_at_ms.is_none() && state.lease.is_none() && same_number(
                state.settled_at_ms,
                Some(at),
            ) && state.attempt == 1 && state.fencing_token == token,
            "a completed item did not record its own settlement",
        ),
        None => Err(suite_error("a completed item vanished")),
    }
}

/// Judges a sweep that has to find two items in due order.
pub fn judge_order(
    sweep: &Vec<ActivationGrant>,
    first: &ActivationItemId,
    second: &ActivationItemId,
    by_ms: u64,
) -> (r: Result<(), ActivationError>)
    ensures
        fault(r) == order_flaw(grant_views(sweep@), first@, second@, by_ms),
{
    let in_order = sweep.len() == 2 && same_text(sweep[0].item_id().as_str(), first.as_str())
        && same_text(sweep[1].item_id().as_str(), second.as_str());
    if !in_order {
        let mut words = "a due sweep answered [".to_owned();
        words.append(show_ids(sweep).as_str());
        words.append("] rather than the due items in due order");
        return Err(suite_error(words.as_str()));
    }
    require(
        sweep[0].due_at_ms() <= by_ms && sweep[1].due_at_ms() <= by_ms,
        "a due sweep returned work before its time",
    )
}

/// Judges a sweep that has to find one item alone, and gives its grant.
pub fn judge_single(sweep: &Vec<ActivationGrant>, expected: &ActivationItemId, message: &str) -> (r:
    Result<ActivationGrant, ActivationError>)
    ensures
        fault(r) == single_flaw(grant_views(sweep@), expected@, message@),
        r matches Ok(grant) ==> grant@ == grant_views(sweep@)[0],
{
    if sweep.len() == 1 && same_text(sweep[0].item_id().as_str(), expected.as_str()) {
        return Ok(duplicate_grant(&sweep[0]));
    }
    Err(suite_error(message))
}

/// Whether two leases are the same.
fn same_lease(a: &Option<ActivationLeaseState>, b: &Option<ActivationLeaseState>) -> (r: bool)
    ensures
        r == (crate::activation::lease_view(*a) == crate::activation::lease_view(*b)),
{
    match (a, b) {
        (None, None) => true,
        (Some(x), Some(y)) => x.worker_id.same(&y.worker_id) && x.token == y.token
            && x.expires_at_ms == y.expires_at_ms,
        _ => false,
    }
}

/// Whether two optional numbers are the same.
fn same_number(a: Option<u64>, b: Option<u64>) -> (r: bool)
    ensures
        r == (a == b),
{
    match (a, b) {
        (None, None) => true,
        (Some(x), Some(y)) => x == y,
        _ => false,
    }
}

/// Whether two optional states are the same.
fn same_state(a: &Option<ActivationItemState>, b: &Option<ActivationItemState>) -> (r: bool)
    ensures
        r == (crate::activation::book::state_option(*a) == crate::activation::book::state_option(
            *b,
        )),
{
    match (a, b) {
        (None, None) => true,
        (Some(x), Some(y)) => same_text(x.item_id.as_str(), y.item_id.as_str()) && same_number(
            x.due_at_ms,
            y.due_at_ms,
        ) && same_bytes(&x.payload, &y.payload) && x.attempt == y.attempt && x.fencing_token
            == y.fencing_token && same_lease(&x.lease, &y.lease) && same_number(
            x.settled_at_ms,
            y.settled_at_ms,
        ),
        _ => false,
    }
}

/// An item that was scheduled and never granted.
spec fn fresh_item(id: Seq<char>, due: u64, payload: Seq<u8>) -> ItemView {
    ItemView {
        item_id: id,
        due_at_ms: Some(due),
        payload,
        attempt: 0,
        fencing_token: 0,
        lease: None,
        settled_at_ms: None,
        settled_token: None,
    }
}

/// An item that was granted and is held.
spec fn held_item(item: ItemView, worker: Seq<char>, expires: u64) -> ItemView {
    ItemView {
        attempt: (item.attempt + 1) as u64,
        fencing_token: (item.fencing_token + 1) as u64,
        lease: Some(
            LeaseView {
                worker_id: worker,
                token: (item.fencing_token + 1) as u64,
                expires_at_ms: expires,
            },
        ),
        settled_at_ms: None,
        ..item
    }
}

/// A held item that was completed.
spec fn done_item(item: ItemView, at: u64) -> ItemView {
    ItemView {
        due_at_ms: None,
        settled_at_ms: Some(at),
        settled_token: Some(item.fencing_token),
        lease: None,
        ..item
    }
}

/// Whether no item is claimable at an instant.
spec fn quiet(items: Items, now_ms: u64) -> bool {
    forall|id: Seq<char>| !#[trigger] claimable(items, id, now_ms)
}

/// A sweep of quiet items finds nothing.
proof fn lemma_quiet_sweep(items: Items, q: crate::activation::RequestView)
    requires
        quiet(items, q.now_ms),
        storable(q.now_ms),
    ensures
        sweep_on(items, q) == (
            Ok::<Seq<GrantView>, crate::activation::ActivationFault>(Seq::empty()),
            items,
        ),
{
    let none = Seq::<Seq<char>>::empty();
    assert(due_listing(items, q.now_ms, none));
    lemma_due_ids(items, q.now_ms, none);
}

/// A sweep that one item alone is claimable in grants that item.
proof fn lemma_single_sweep(items: Items, q: crate::activation::RequestView, id: Seq<char>)
    requires
        forall|x: Seq<char>| #[trigger] claimable(items, x, q.now_ms) <==> x == id,
        storable(q.now_ms),
        q.limit >= 1,
    ensures
        sweep_on(items, q) == match crate::activation::item::grant_effect(items[id], q) {
            Ok((given, after)) => (
                Ok::<Seq<GrantView>, crate::activation::ActivationFault>(seq![given]),
                items.insert(id, after),
            ),
            Err(e) => (Err::<Seq<GrantView>, crate::activation::ActivationFault>(e), items),
        },
{
    let one = seq![id];
    assert forall|x: Seq<char>| one.contains(x) <==> #[trigger] claimable(items, x, q.now_ms) by {
        assert(one[0] == id);
    }
    assert(due_listing(items, q.now_ms, one));
    lemma_due_ids(items, q.now_ms, one);
    assert(one.drop_last() =~= Seq::<Seq<char>>::empty());
    reveal_with_fuel(grant_all, 2);
    match crate::activation::item::grant_effect(items[id], q) {
        Ok((given, _)) => {
            assert(Seq::<GrantView>::empty().push(given) =~= seq![given]);
        },
        Err(_) => {},
    }
}

/// A sweep in which two items are claimable grants both, the earlier one first.
proof fn lemma_pair_sweep(
    items: Items,
    q: crate::activation::RequestView,
    first: Seq<char>,
    second: Seq<char>,
)
    requires
        forall|x: Seq<char>| #[trigger]
            claimable(items, x, q.now_ms) <==> x == first || x == second,
        due_before(items, first, second),
        first != second,
        storable(q.now_ms),
        q.limit >= 1,
        crate::activation::item::grant_effect(items[first], q) is Ok,
        crate::activation::item::grant_effect(items[second], q) is Ok,
    ensures
        ({
            let (g1, a1) = crate::activation::item::grant_effect(items[first], q)->Ok_0;
            let (g2, a2) = crate::activation::item::grant_effect(items[second], q)->Ok_0;
            sweep_on(items, q) == if q.limit == 1 {
                (
                    Ok::<Seq<GrantView>, crate::activation::ActivationFault>(seq![g1]),
                    items.insert(first, a1),
                )
            } else {
                (
                    Ok::<Seq<GrantView>, crate::activation::ActivationFault>(seq![g1, g2]),
                    items.insert(first, a1).insert(second, a2),
                )
            }
        }),
{
    let both = seq![first, second];
    assert forall|x: Seq<char>| both.contains(x) <==> #[trigger] claimable(
        items,
        x,
        q.now_ms,
    ) by {
        assert(both[0] == first);
        assert(both[1] == second);
    }
    assert(due_listing(items, q.now_ms, both));
    lemma_due_ids(items, q.now_ms, both);
    let (g1, a1) = crate::activation::item::grant_effect(items[first], q)->Ok_0;
    let (g2, a2) = crate::activation::item::grant_effect(items[second], q)->Ok_0;
    assert(both.take(1) =~= seq![first]);
    assert(seq![first].drop_last() =~= Seq::<Seq<char>>::empty());
    assert(both.drop_last() =~= seq![first]);
    reveal_with_fuel(grant_all, 3);
    assert(grant_all(items, seq![first], q) == Ok::<
        (Seq<GrantView>, Items),
        crate::activation::ActivationFault,
    >((Seq::<GrantView>::empty().push(g1), items.insert(first, a1))));
    assert(Seq::<GrantView>::empty().push(g1) =~= seq![g1]);
    assert(seq![g1].push(g2) =~= seq![g1, g2]);
}

/// An unknown identity is answered, never invented.
fn check_unknown<A: ActivationAuthority>(
    authority: &mut A,
    alpha: &ActivationItemId,
    worker: &ActivationWorkerId,
) -> (r: Result<(), ActivationError>)
    ensures
        old(authority).lawful() && old(authority).items() == Items::empty() ==> r is Ok
            && final(authority).lawful() && final(authority).items() == Items::empty(),
        walked(
            |i: int|
                unknown_step(
                    final(authority).calls(),
                    old(authority).calls().len() as int,
                    i,
                    alpha@,
                    worker@,
                ),
            old(authority).calls(),
            final(authority).calls(),
            3,
            fault(r),
        ),
        old(authority).lawful() && old(authority).items().dom().contains(alpha@) ==> fault(r)
            == Some(not_fresh()),
{
    let ghost good = authority.lawful() && authority.items() == Items::empty();
    let known = authority.inspect(alpha)?;
    require(known.is_none(), "a fresh authority already knows a work item")?;
    let claim = authority.claim_item(alpha, &request(worker, BASE_MS, 1_000, 8)?)?;
    let unknown = match claim {
        ActivationClaim::Unknown => true,
        _ => false,
    };
    require(unknown, "claiming an unknown work item was not refused as unknown")?;
    let sweep_request = request(worker, BASE_MS, 1_000, 8)?;
    proof {
        if good {
            assert(quiet(Items::empty(), BASE_MS));
            lemma_quiet_sweep(Items::empty(), sweep_request@);
        }
    }
    let sweep = authority.claim_due(&sweep_request)?;
    assert(grant_views(sweep@).len() == sweep@.len());
    require(sweep.len() == 0, "a fresh authority granted work that was never scheduled")
}

/// Waking is idempotent by identity, and nothing is granted before its time.
fn check_waking<A: ActivationAuthority>(
    authority: &mut A,
    alpha: &ActivationItemId,
    worker: &ActivationWorkerId,
    payload: &Vec<u8>,
    due: u64,
) -> (r: Result<(), ActivationError>)
    requires
        BASE_MS < due < BASE_MS + 1_000,
        payload@.len() <= 64,
    ensures
        old(authority).lawful() && old(authority).items() == Items::empty() ==> r is Ok
            && final(authority).lawful() && final(authority).items() == Items::empty().insert(
            alpha@,
            fresh_item(alpha@, due, payload@),
        ),
        walked(
            |i: int|
                waking_step(
                    final(authority).calls(),
                    old(authority).calls().len() as int,
                    i,
                    alpha@,
                    worker@,
                    payload@,
                    due,
                ),
            old(authority).calls(),
            final(authority).calls(),
            6,
            fault(r),
        ),
{
    let ghost good = authority.lawful() && authority.items() == Items::empty();
    let ghost one = Items::empty().insert(alpha@, fresh_item(alpha@, due, payload@));
    let wake = ActivationWake::new(alpha.duplicate(), due).with_payload(
        crate::activation::copy_bytes(payload),
    )?;
    let first = authority.wake(&wake, BASE_MS)?;
    require(
        first == ActivationWakeOutcome::Registered,
        "the first wake of an identity was not a registration",
    )?;
    assert(good ==> authority.items() == one);
    let second = authority.wake(&wake, BASE_MS)?;
    require(
        second == ActivationWakeOutcome::Unchanged,
        "a duplicate wake was treated as new work",
    )?;
    assert(good ==> authority.items() =~= one);
    let moved = ActivationWake::new(alpha.duplicate(), due + 50).with_payload(
        crate::activation::copy_bytes(payload),
    )?;
    let third = authority.wake(&moved, BASE_MS)?;
    require(
        third == ActivationWakeOutcome::Rescheduled,
        "moving a due time was not reported as a reschedule",
    )?;
    let fourth = authority.wake(&wake, BASE_MS)?;
    require(
        fourth == ActivationWakeOutcome::Rescheduled,
        "moving a due time back was not reported as a reschedule",
    )?;
    assert(good ==> authority.items() =~= one);
    let early = authority.claim_item(alpha, &request(worker, due - 1, 1_000, 8)?)?;
    let not_due = match early {
        ActivationClaim::NotDue { due_at_ms } => due_at_ms == due,
        _ => false,
    };
    require(not_due, "a work item was claimable before it was due")?;
    assert(good ==> authority.items() =~= one);
    let sweep_request = request(worker, due - 1, 1_000, 8)?;
    proof {
        if good {
            assert(quiet(one, (due - 1) as u64));
            lemma_quiet_sweep(one, sweep_request@);
        }
    }
    let sweep = authority.claim_due(&sweep_request)?;
    assert(grant_views(sweep@).len() == sweep@.len());
    require(sweep.len() == 0, "a sweep before the due time returned work")
}

/// A copy of a grant.
fn duplicate_grant(grant: &ActivationGrant) -> (r: ActivationGrant)
    ensures
        r@ == grant@,
{
    ActivationGrant::new(
        grant.item_id().duplicate(),
        grant.worker_id().duplicate(),
        grant.token(),
        grant.due_at_ms(),
        grant.expires_at_ms(),
        grant.attempt(),
        crate::activation::copy_bytes(grant.payload()),
    )
}

/// Two supervisors sweep the same instant, and exactly one may execute; the other is told why.
/// The grant comes back with whether the first supervisor got it.
fn check_contention<A: ActivationAuthority>(
    authority: &mut A,
    alpha: &ActivationItemId,
    worker_a: &ActivationWorkerId,
    worker_b: &ActivationWorkerId,
    payload: &Vec<u8>,
    due: u64,
) -> (r: Result<(bool, ActivationGrant), ActivationError>)
    requires
        BASE_MS < due < BASE_MS + 1_000,
    ensures
        old(authority).lawful() && old(authority).items() == Items::empty().insert(
            alpha@,
            fresh_item(alpha@, due, payload@),
        ) ==> final(authority).lawful() && final(authority).items() == Items::empty().insert(
            alpha@,
            held_item(fresh_item(alpha@, due, payload@), worker_a@, (due + 1_000) as u64),
        ) && (r matches Ok((first, grant)) && first && grant@ == (GrantView {
            item_id: alpha@,
            worker_id: worker_a@,
            token: 1,
            due_at_ms: due,
            expires_at_ms: (due + 1_000) as u64,
            attempt: 1,
            payload: payload@,
        })),
        walked(
            |i: int|
                contention_step(
                    final(authority).calls(),
                    old(authority).calls().len() as int,
                    i,
                    alpha@,
                    worker_a@,
                    worker_b@,
                    payload@,
                    due,
                ),
            old(authority).calls(),
            final(authority).calls(),
            7,
            fault(r),
        ),
        r matches Ok((first, grant)) ==> {
            let at = old(authority).calls().len() as int;
            first == first_won(final(authority).calls(), at) && grant@ == contended_grant(
                final(authority).calls(),
                at,
            )
        },
{
    let ghost fresh = fresh_item(alpha@, due, payload@);
    let ghost one = Items::empty().insert(alpha@, fresh);
    let ghost two = Items::empty().insert(
        alpha@,
        held_item(fresh, worker_a@, (due + 1_000) as u64),
    );
    let ghost good = authority.lawful() && authority.items() == one;
    authority.open(ConformanceOpen::Concurrent)?;
    authority.through(ConformanceOpen::Fresh);
    let first_request = request(worker_a, due, 1_000, 8)?;
    proof {
        if good {
            assert forall|x: Seq<char>| #[trigger] claimable(one, x, due) <==> x == alpha@ by {}
            lemma_single_sweep(one, first_request@, alpha@);
        }
    }
    let first = authority.claim_due(&first_request)?;
    proof {
        if good {
            assert(grant_views(first@).len() == 1);
            assert(grant_views(first@)[0] == first@[0]@);
            assert(authority.items() =~= two);
        }
    }
    authority.through(ConformanceOpen::Concurrent);
    let second_request = request(worker_b, due, 1_000, 8)?;
    proof {
        if good {
            assert(quiet(two, due));
            lemma_quiet_sweep(two, second_request@);
        }
    }
    let second = authority.claim_due(&second_request)?;
    assert(grant_views(first@).len() == first@.len());
    assert(grant_views(second@).len() == second@.len());
    let won = judge_contention(&first, &second)?;
    let grant = if won {
        duplicate_grant(&first[0])
    } else {
        duplicate_grant(&second[0])
    };
    let (holder, loser) = if won {
        (worker_a, worker_b)
    } else {
        (worker_b, worker_a)
    };
    judge_grant(&grant, alpha, holder, payload, due)?;
    let refused = authority.claim_item(alpha, &request(loser, due, 1_000, 8)?)?;
    judge_refusal(&refused, holder, grant.expires_at_ms())?;
    assert(good ==> authority.items() =~= two);
    authority.through(ConformanceOpen::Fresh);
    Ok((won, grant))
}

/// Only the holder may extend or complete, and completion is idempotent.
fn check_fences<A: ActivationAuthority>(
    authority: &mut A,
    alpha: &ActivationItemId,
    worker_b: &ActivationWorkerId,
    loser: &ActivationWorkerId,
    grant: &ActivationGrant,
    due: u64,
) -> (r: Result<(), ActivationError>)
    requires
        BASE_MS < due < BASE_MS + 1_000,
    ensures
        old(authority).lawful() && grant@.item_id == alpha@ && grant@.token == 1 && loser@
            != grant@.worker_id && old(authority).items() == Items::empty().insert(
            alpha@,
            held_item(
                fresh_item(alpha@, due, grant@.payload),
                grant@.worker_id,
                (due + 1_000) as u64,
            ),
        ) ==> r is Ok && final(authority).lawful() && final(authority).items()
            == Items::empty().insert(
            alpha@,
            done_item(
                held_item(
                    fresh_item(alpha@, due, grant@.payload),
                    grant@.worker_id,
                    (due + 2_500) as u64,
                ),
                (due + 700) as u64,
            ),
        ),
        walked(
            |i: int|
                fences_step(
                    final(authority).calls(),
                    old(authority).calls().len() as int,
                    i,
                    alpha@,
                    worker_b@,
                    loser@,
                    grant@,
                    due,
                ),
            old(authority).calls(),
            final(authority).calls(),
            12,
            fault(r),
        ),
{
    let ghost fresh = fresh_item(alpha@, due, grant@.payload);
    let ghost two = Items::empty().insert(
        alpha@,
        held_item(fresh, grant@.worker_id, (due + 1_000) as u64),
    );
    let ghost three = Items::empty().insert(
        alpha@,
        held_item(fresh, grant@.worker_id, (due + 2_500) as u64),
    );
    let ghost four = Items::empty().insert(
        alpha@,
        done_item(held_item(fresh, grant@.worker_id, (due + 2_500) as u64), (due + 700) as u64),
    );
    let ghost good = authority.lawful() && grant@.item_id == alpha@ && grant@.token == 1 && loser@
        != grant@.worker_id && authority.items() == two;
    let handle = grant.handle();
    let renewed = authority.renew(&handle, 2_000, due + 500)?;
    require(
        renewed == ActivationRenewal::Renewed { expires_at_ms: due + 2_500 },
        "the holder could not extend its own lease",
    )?;
    assert(good ==> authority.items() =~= three);
    authority.through(ConformanceOpen::Concurrent);
    let foreign = ActivationHandle::new(alpha.duplicate(), loser.duplicate(), grant.token());
    let renewed_by_other = authority.renew(&foreign, 2_000, due + 600)?;
    require(
        renewed_by_other == ActivationRenewal::Fenced,
        "a worker that never held the item was allowed to renew it",
    )?;
    assert(good ==> authority.items() =~= three);
    let completed_by_other = authority.release(
        &foreign,
        ActivationDisposition::Complete,
        due + 600,
    )?;
    require(
        completed_by_other == ActivationSettlement::Fenced,
        "a worker that never held the item was allowed to complete it",
    )?;
    assert(good ==> authority.items() =~= three);
    authority.through(ConformanceOpen::Fresh);
    let completed = authority.release(&handle, ActivationDisposition::Complete, due + 700)?;
    require(
        completed == ActivationSettlement::Settled,
        "the holder could not complete its own work item",
    )?;
    assert(good ==> authority.items() =~= four);
    let retried = authority.release(&handle, ActivationDisposition::Complete, due + 701)?;
    require(
        retried == ActivationSettlement::AlreadySettled,
        "a retried completion was not answered as already settled",
    )?;
    assert(good ==> authority.items() =~= four);
    authority.through(ConformanceOpen::Concurrent);
    let elsewhere = authority.release(&handle, ActivationDisposition::Complete, due + 702)?;
    require(
        elsewhere == ActivationSettlement::AlreadySettled,
        "a retried completion through another handle was not answered as already settled",
    )?;
    assert(good ==> authority.items() =~= four);
    authority.through(ConformanceOpen::Fresh);
    let claim = authority.claim_item(alpha, &request(worker_b, due + 703, 1_000, 8)?)?;
    let settled = match claim {
        ActivationClaim::Settled => true,
        _ => false,
    };
    require(settled, "a completed work item was still claimable")?;
    assert(good ==> authority.items() =~= four);
    let state = authority.inspect(alpha)?;
    judge_settled(&state, due + 700, grant.token())
}

/// Whether three identities are different and unknown.
spec fn unknown_three(items: Items, a: Seq<char>, b: Seq<char>, c: Seq<char>) -> bool {
    a != b && b != c && a != c && !items.dom().contains(a) && !items.dom().contains(b)
        && !items.dom().contains(c)
}

/// Takes one due item by a sweep, which must find it alone.
fn sweep_single<A: ActivationAuthority>(
    authority: &mut A,
    worker: &ActivationWorkerId,
    expected: &ActivationItemId,
    now_ms: u64,
    limit: usize,
    message: &str,
) -> (r: Result<ActivationGrant, ActivationError>)
    requires
        now_ms <= BASE_MS + 1_000,
        1 <= limit <= 8,
    ensures
        ({
            let items = old(authority).items();
            let q = asks(worker@, now_ms as int, 1_000, limit);
            let found = sweep_on(items, q).0->Ok_0;
            old(authority).lawful() && sweep_on(items, q).0 is Ok && found.len() == 1
                && found[0].item_id == expected@ ==> final(authority).lawful() && final(
                authority
            ).items() == sweep_on(items, q).1 && r is Ok && r->Ok_0@ == found[0]
        }),
        ({
            let call = final(authority).calls().last();
            &&& final(authority).calls() == old(authority).calls().push(call)
            &&& match fault(r) {
                None => due_step(
                    call,
                    asks(worker@, now_ms as int, 1_000, limit),
                    single_flaw(swept_up(call), expected@, message@),
                ) is Right && r->Ok_0@ == swept_up(call)[0],
                Some(e) => due_step(
                    call,
                    asks(worker@, now_ms as int, 1_000, limit),
                    single_flaw(swept_up(call), expected@, message@),
                ) == Judgement::Wrong(e),
            }
        }),
{
    let sweep = authority.claim_due(&request(worker, now_ms, 1_000, limit)?)?;
    assert(grant_views(sweep@).len() == sweep@.len());
    judge_single(&sweep, expected, message)
}

/// Completes a granted item at an instant of the suite.
fn complete<A: ActivationAuthority>(
    authority: &mut A,
    grant: &ActivationGrant,
    now_ms: u64,
) -> (r: Result<(), ActivationError>)
    requires
        now_ms <= BASE_MS + 1_000,
    ensures
        ({
            let items = old(authority).items();
            let id = grant@.item_id;
            old(authority).lawful() && items.dom().contains(id) && honoured(
                items[id],
                grant@.handle(),
                now_ms,
            ) && items[id].settled_token != Some(grant@.token) && storable(grant@.token)
                && items[id].fencing_token == grant@.token ==> r is Ok && final(authority).lawful()
                    && final(authority).items() == items.insert(
                id,
                done_item(items[id], now_ms),
            )
        }),
        ({
            let call = final(authority).calls().last();
            let step = release_step(
                call,
                grant@.handle(),
                ActivationDisposition::Complete,
                now_ms,
                None,
            );
            &&& final(authority).calls() == old(authority).calls().push(call)
            &&& match fault(r) {
                None => step is Right,
                Some(e) => step == Judgement::Wrong(e),
            }
        }),
{
    let _ = authority.release(&grant.handle(), ActivationDisposition::Complete, now_ms)?;
    Ok(())
}

/// Due work surfaces oldest first, ties broken by identity, and never early.
#[verifier::spinoff_prover]
#[verifier::rlimit(60)]
fn ordering<A: ActivationAuthority>(
    authority: &mut A,
    worker: &ActivationWorkerId,
    beta: &ActivationItemId,
    delta: &ActivationItemId,
    gamma: &ActivationItemId,
) -> (r: Result<(), ActivationError>)
    ensures
        old(authority).lawful() && unknown_three(old(authority).items(), beta@, delta@, gamma@)
            && text_lt(beta@, delta@) && quiet(old(authority).items(), (BASE_MS + 400) as u64)
            && quiet(old(authority).items(), (BASE_MS + 600) as u64) ==> r is Ok
                && final(authority).lawful() && (exists|b: ItemView, d: ItemView, g: ItemView|
            final(authority).items() == old(authority).items().insert(gamma@, g).insert(
                delta@,
                d,
            ).insert(beta@, b) && settled_by(b, (BASE_MS + 700) as u64) && settled_by(
                d,
                (BASE_MS + 700) as u64,
            ) && settled_by(g, (BASE_MS + 700) as u64)),
        walked(
            |i: int|
                ordering_step(
                    final(authority).calls(),
                    old(authority).calls().len() as int,
                    i,
                    worker@,
                    beta@,
                    delta@,
                    gamma@,
                ),
            old(authority).calls(),
            final(authority).calls(),
            14,
            fault(r),
        ),
{
    let ghost base = authority.items();
    let ghost good = authority.lawful() && unknown_three(base, beta@, delta@, gamma@) && text_lt(
        beta@,
        delta@,
    ) && quiet(base, (BASE_MS + 400) as u64) && quiet(base, (BASE_MS + 600) as u64);
    let ghost none = Seq::<u8>::empty();
    let ghost f_gamma = fresh_item(gamma@, (BASE_MS + 500) as u64, none);
    let ghost f_delta = fresh_item(delta@, (BASE_MS + 300) as u64, none);
    let ghost f_beta = fresh_item(beta@, (BASE_MS + 300) as u64, none);
    let ghost s1 = base.insert(gamma@, f_gamma).insert(delta@, f_delta).insert(beta@, f_beta);
    let _ = authority.wake(&ActivationWake::new(gamma.duplicate(), BASE_MS + 500), BASE_MS)?;
    let _ = authority.wake(&ActivationWake::new(delta.duplicate(), BASE_MS + 300), BASE_MS)?;
    let _ = authority.wake(&ActivationWake::new(beta.duplicate(), BASE_MS + 300), BASE_MS)?;
    assert(good ==> authority.items() =~= s1);
    let sweep_request = request(worker, BASE_MS + 400, 1_000, 8)?;
    let ghost h_beta = held_item(f_beta, worker@, (BASE_MS + 1_400) as u64);
    let ghost h_delta = held_item(f_delta, worker@, (BASE_MS + 1_400) as u64);
    let ghost s2 = s1.insert(beta@, h_beta).insert(delta@, h_delta);
    proof {
        if good {
            assert forall|x: Seq<char>| #[trigger]
                claimable(s1, x, (BASE_MS + 400) as u64) <==> x == beta@ || x == delta@ by {
                if x != beta@ && x != delta@ && x != gamma@ {
                    assert(!claimable(base, x, (BASE_MS + 400) as u64));
                }
            }
            lemma_pair_sweep(s1, sweep_request@, beta@, delta@);
        }
    }
    let sweep = authority.claim_due(&sweep_request)?;
    proof {
        if good {
            assert(grant_views(sweep@).len() == sweep@.len());
            assert(grant_views(sweep@)[0] == sweep@[0]@);
            assert(grant_views(sweep@)[1] == sweep@[1]@);
            assert(authority.items() =~= s2);
        }
    }
    assert(grant_views(sweep@).len() == sweep@.len());
    judge_order(&sweep, beta, delta, BASE_MS + 400)?;
    let ghost h_gamma = held_item(f_gamma, worker@, (BASE_MS + 1_600) as u64);
    let ghost s3 = s2.insert(gamma@, h_gamma);
    proof {
        if good {
            assert forall|x: Seq<char>| #[trigger]
                claimable(s2, x, (BASE_MS + 600) as u64) <==> x == gamma@ by {
                if x != beta@ && x != delta@ && x != gamma@ {
                    assert(!claimable(base, x, (BASE_MS + 600) as u64));
                }
            }
            lemma_single_sweep(
                s2,
                crate::activation::RequestView {
                    worker_id: worker@,
                    now_ms: (BASE_MS + 600) as u64,
                    lease_ms: 1_000,
                    limit: 8,
                },
                gamma@,
            );
        }
    }
    let rest = sweep_single(
        authority,
        worker,
        gamma,
        BASE_MS + 600,
        8,
        "a later sweep did not surface the work that had since come due",
    )?;
    assert(good ==> authority.items() =~= s3);
    let ghost d_beta = done_item(h_beta, (BASE_MS + 700) as u64);
    let ghost d_delta = done_item(h_delta, (BASE_MS + 700) as u64);
    let ghost d_gamma = done_item(h_gamma, (BASE_MS + 700) as u64);
    complete(authority, &sweep[0], BASE_MS + 700)?;
    complete(authority, &sweep[1], BASE_MS + 700)?;
    complete(authority, &rest, BASE_MS + 700)?;
    let ghost s4 = base.insert(gamma@, d_gamma).insert(delta@, d_delta).insert(beta@, d_beta);
    assert(good ==> authority.items() =~= s4);
    let _ = authority.wake(&ActivationWake::new(beta.duplicate(), BASE_MS + 300), BASE_MS)?;
    let _ = authority.wake(&ActivationWake::new(delta.duplicate(), BASE_MS + 200), BASE_MS)?;
    let ghost w_beta = ItemView {
        due_at_ms: Some((BASE_MS + 300) as u64),
        settled_at_ms: None,
        ..d_beta
    };
    let ghost w_delta = ItemView {
        due_at_ms: Some((BASE_MS + 200) as u64),
        settled_at_ms: None,
        ..d_delta
    };
    let ghost s5 = base.insert(gamma@, d_gamma).insert(delta@, w_delta).insert(beta@, w_beta);
    assert(good ==> authority.items() =~= s5);
    proof {
        if good {
            assert forall|x: Seq<char>| #[trigger]
                claimable(s5, x, (BASE_MS + 400) as u64) <==> x == delta@ || x == beta@ by {
                if x != beta@ && x != delta@ && x != gamma@ {
                    assert(!claimable(base, x, (BASE_MS + 400) as u64));
                }
            }
            lemma_pair_sweep(
                s5,
                crate::activation::RequestView {
                    worker_id: worker@,
                    now_ms: (BASE_MS + 400) as u64,
                    lease_ms: 1_000,
                    limit: 1,
                },
                delta@,
                beta@,
            );
        }
    }
    let bounded = sweep_single(
        authority,
        worker,
        delta,
        BASE_MS + 400,
        1,
        "a bounded sweep did not take the oldest due work first",
    )?;
    complete(authority, &bounded, BASE_MS + 700)?;
    let ghost e_delta = done_item(
        held_item(w_delta, worker@, (BASE_MS + 1_400) as u64),
        (BASE_MS + 700) as u64,
    );
    let ghost s6 = base.insert(gamma@, d_gamma).insert(delta@, e_delta).insert(beta@, w_beta);
    assert(good ==> authority.items() =~= s6);
    proof {
        if good {
            assert forall|x: Seq<char>| #[trigger]
                claimable(s6, x, (BASE_MS + 400) as u64) <==> x == beta@ by {
                if x != beta@ && x != delta@ && x != gamma@ {
                    assert(!claimable(base, x, (BASE_MS + 400) as u64));
                }
            }
            lemma_single_sweep(
                s6,
                crate::activation::RequestView {
                    worker_id: worker@,
                    now_ms: (BASE_MS + 400) as u64,
                    lease_ms: 1_000,
                    limit: 8,
                },
                beta@,
            );
        }
    }
    let remaining = sweep_single(
        authority,
        worker,
        beta,
        BASE_MS + 400,
        8,
        "a bounded sweep left the remaining due work unreachable",
    )?;
    complete(authority, &remaining, BASE_MS + 700)?;
    let ghost e_beta = done_item(
        held_item(w_beta, worker@, (BASE_MS + 1_400) as u64),
        (BASE_MS + 700) as u64,
    );
    let ghost s7 = base.insert(gamma@, d_gamma).insert(delta@, e_delta).insert(beta@, e_beta);
    proof {
        if good {
            assert(authority.items() =~= s7);
            assert(settled_by(e_beta, (BASE_MS + 700) as u64));
            assert(settled_by(e_delta, (BASE_MS + 700) as u64));
            assert(settled_by(d_gamma, (BASE_MS + 700) as u64));
        }
    }
    Ok(())
}

/// Whether an item was completed at an instant and rests.
spec fn settled_by(item: ItemView, at: u64) -> bool {
    item.settled_at_ms == Some(at) && item.due_at_ms is None && item.lease is None
}

/// A worker that stops without releasing loses the item at expiry, and the successor's claim
/// advances the token that invalidates it.
fn expiry<A: ActivationAuthority>(
    authority: &mut A,
    epsilon: &ActivationItemId,
    crashed: &ActivationWorkerId,
    successor: &ActivationWorkerId,
) -> (r: Result<(), ActivationError>)
    ensures
        old(authority).lawful() && !old(authority).items().dom().contains(epsilon@) ==> r is Ok
            && final(authority).lawful() && (exists|e: ItemView|
            settled_by(e, (BASE_MS + 903) as u64) && final(authority).items()
                == old(authority).items().insert(epsilon@, e)),
        walked(
            |i: int|
                expiry_step(
                    final(authority).calls(),
                    old(authority).calls().len() as int,
                    i,
                    epsilon@,
                    crashed@,
                    successor@,
                ),
            old(authority).calls(),
            final(authority).calls(),
            12,
            fault(r),
        ),
{
    let ghost base = authority.items();
    let ghost good = authority.lawful() && !base.dom().contains(epsilon@);
    let ghost fresh = fresh_item(epsilon@, (BASE_MS + 800) as u64, Seq::empty());
    let _ = authority.wake(&ActivationWake::new(epsilon.duplicate(), BASE_MS + 800), BASE_MS)?;
    let claim = authority.claim_item(epsilon, &request(crashed, BASE_MS + 800, 50, 8)?)?;
    let lost = granted(claim, "a due item was not granted to the first worker")?;
    let ghost first = held_item(fresh, crashed@, (BASE_MS + 850) as u64);
    assert(good ==> authority.items() =~= base.insert(epsilon@, first));
    authority.through(ConformanceOpen::Concurrent);
    let early = authority.claim_item(epsilon, &request(successor, BASE_MS + 820, 1_000, 8)?)?;
    let refused = match early {
        ActivationClaim::Held { .. } => true,
        _ => false,
    };
    require(refused, "a live lease was taken over before it expired")?;
    assert(good ==> authority.items() =~= base.insert(epsilon@, first));
    let late = authority.claim_item(epsilon, &request(successor, BASE_MS + 900, 1_000, 8)?)?;
    let reclaimed = granted(
        late,
        "an expired lease did not make the work item claimable again",
    )?;
    let ghost second = held_item(first, successor@, (BASE_MS + 1_900) as u64);
    assert(good ==> authority.items() =~= base.insert(epsilon@, second));
    require(
        reclaimed.token().get() > lost.token().get() && reclaimed.attempt() == 2,
        "reclaiming an expired lease did not advance the fencing token",
    )?;
    authority.through(ConformanceOpen::Fresh);
    let renewed = authority.renew(&lost.handle(), 1_000, BASE_MS + 901)?;
    require(renewed == ActivationRenewal::Fenced, "a superseded worker was allowed to renew")?;
    assert(good ==> authority.items() =~= base.insert(epsilon@, second));
    let released = authority.release(
        &lost.handle(),
        ActivationDisposition::Complete,
        BASE_MS + 902,
    )?;
    require(
        released == ActivationSettlement::Fenced,
        "a superseded worker was allowed to record an outcome",
    )?;
    assert(good ==> authority.items() =~= base.insert(epsilon@, second));
    let untouched = match authority.inspect(epsilon)? {
        Some(state) => state.settled_at_ms.is_none() && state.lease.is_some(),
        None => false,
    };
    require(untouched, "a refused settlement still changed the work item")?;
    authority.through(ConformanceOpen::Concurrent);
    let settled = authority.release(
        &reclaimed.handle(),
        ActivationDisposition::Complete,
        BASE_MS + 903,
    )?;
    require(
        settled == ActivationSettlement::Settled,
        "the successor could not complete the work it took over",
    )?;
    authority.through(ConformanceOpen::Fresh);
    proof {
        if good {
            let done = done_item(second, (BASE_MS + 903) as u64);
            assert(authority.items() =~= base.insert(epsilon@, done));
            assert(settled_by(done, (BASE_MS + 903) as u64));
        }
    }
    Ok(())
}

/// A live lease is the worker's to settle; a yielded item returns when it asked to. A lease
/// bound is the contract's.
fn check_yield<A: ActivationAuthority>(
    authority: &mut A,
    zeta: &ActivationItemId,
    worker: &ActivationWorkerId,
) -> (r: Result<(), ActivationError>)
    ensures
        old(authority).lawful() && !old(authority).items().dom().contains(zeta@) ==> r is Ok
            && final(authority).lawful() && (exists|z: ItemView|
            z.due_at_ms == Some((BASE_MS + 20_000) as u64) && z.settled_at_ms is None
                && final(authority).items() == old(authority).items().insert(zeta@, z)),
        walked(
            |i: int|
                yield_step(
                    final(authority).calls(),
                    old(authority).calls().len() as int,
                    i,
                    zeta@,
                    worker@,
                ),
            old(authority).calls(),
            final(authority).calls(),
            8,
            fault(r),
        ),
{
    let ghost base = authority.items();
    let ghost good = authority.lawful() && !base.dom().contains(zeta@);
    let ghost fresh = fresh_item(zeta@, (BASE_MS + 900) as u64, Seq::empty());
    let _ = authority.wake(&ActivationWake::new(zeta.duplicate(), BASE_MS + 900), BASE_MS)?;
    let claim = authority.claim_item(zeta, &request(worker, BASE_MS + 900, 5_000, 8)?)?;
    let taken = granted(claim, "a due item was not granted")?;
    let ghost first = held_item(fresh, worker@, (BASE_MS + 5_900) as u64);
    assert(good ==> authority.items() =~= base.insert(zeta@, first));
    let moved = authority.wake(
        &ActivationWake::new(zeta.duplicate(), BASE_MS + 950),
        BASE_MS + 901,
    )?;
    require(
        moved == ActivationWakeOutcome::Held,
        "a work item under a live lease was rescheduled behind its worker's back",
    )?;
    assert(good ==> authority.items() =~= base.insert(zeta@, first));
    let yielded = authority.release(
        &taken.handle(),
        ActivationDisposition::Yield { due_at_ms: BASE_MS + 20_000 },
        BASE_MS + 902,
    )?;
    require(
        yielded == ActivationSettlement::Settled,
        "a holder could not yield its own work item",
    )?;
    let ghost back = ItemView {
        due_at_ms: Some((BASE_MS + 20_000) as u64),
        settled_at_ms: None,
        settled_token: Some(first.fencing_token),
        lease: None,
        ..first
    };
    assert(good ==> authority.items() =~= base.insert(zeta@, back));
    let retried = authority.release(
        &taken.handle(),
        ActivationDisposition::Yield { due_at_ms: BASE_MS + 30_000 },
        BASE_MS + 903,
    )?;
    require(
        retried == ActivationSettlement::AlreadySettled,
        "a retried yield was not answered as already settled",
    )?;
    assert(good ==> authority.items() =~= base.insert(zeta@, back));
    let early = authority.claim_item(zeta, &request(worker, BASE_MS + 1_000, 1_000, 8)?)?;
    let not_due = match early {
        ActivationClaim::NotDue { due_at_ms } => due_at_ms == BASE_MS + 20_000,
        _ => false,
    };
    require(
        not_due,
        "a yielded work item did not return to the queue at the time it asked for",
    )?;
    assert(good ==> authority.items() =~= base.insert(zeta@, back));
    let none = authority.renew(&taken.handle(), 0, BASE_MS + 1_000);
    require(none.is_err(), "a renewal outside the published lease bound was accepted")?;
    let too_long = authority.renew(
        &taken.handle(),
        MAX_ACTIVATION_LEASE_MS + 1,
        BASE_MS + 1_000,
    );
    require(
        too_long.is_err(),
        "a renewal outside the published lease bound was accepted",
    )?;
    assert(good ==> authority.items() =~= base.insert(zeta@, back));
    Ok(())
}

/// A restart keeps every settlement and every fencing counter.
fn check_restart<A: ActivationAuthority>(
    authority: &mut A,
    alpha: &ActivationItemId,
    zeta: &ActivationItemId,
    epsilon: &ActivationItemId,
    worker_a: &ActivationWorkerId,
    worker_b: &ActivationWorkerId,
    handle: &ActivationHandle,
) -> (r: Result<(), ActivationError>)
    ensures
        old(authority).lawful() && restartable(old(authority).items(), alpha@, handle@)
            && worker_a@ != worker_b@ ==> r is Ok && final(authority).lawful() && (exists|
            a: ItemView,
        |
            settled_by(a, (BASE_MS + 10_002) as u64) && final(authority).items()
                == old(authority).items().insert(alpha@, a)),
        walked(
            |i: int|
                restart_step(
                    final(authority).calls(),
                    old(authority).calls().len() as int,
                    i,
                    alpha@,
                    zeta@,
                    epsilon@,
                    worker_a@,
                    worker_b@,
                    handle@,
                ),
            old(authority).calls(),
            final(authority).calls(),
            12,
            fault(r),
        ),
{
    let ghost base = authority.items();
    let ghost good = authority.lawful() && restartable(base, alpha@, handle@) && worker_a@
        != worker_b@;
    let alpha_before = authority.inspect(alpha)?;
    let zeta_before = authority.inspect(zeta)?;
    let epsilon_before = authority.inspect(epsilon)?;
    authority.give_up();
    authority.open(ConformanceOpen::Reopen)?;
    let alpha_after = authority.inspect(alpha)?;
    let zeta_after = authority.inspect(zeta)?;
    let epsilon_after = authority.inspect(epsilon)?;
    require(
        same_state(&alpha_before, &alpha_after) && same_state(&zeta_before, &zeta_after)
            && same_state(&epsilon_before, &epsilon_after),
        "activation state did not survive a restart unchanged",
    )?;
    let claim = authority.claim_item(alpha, &request(worker_a, BASE_MS + 10_000, 1_000, 8)?)?;
    let resumed = granted(claim, "a rescheduled item was not claimable after restart")?;
    let ghost again = held_item(base[alpha@], worker_a@, (BASE_MS + 11_000) as u64);
    assert(good ==> authority.items() =~= base.insert(alpha@, again));
    require(
        resumed.token().get() > handle.token().get() && resumed.attempt() == 2,
        "a fencing token restarted rather than advanced across a restart",
    )?;
    let remembered = authority.release(handle, ActivationDisposition::Complete, BASE_MS + 10_001)?;
    require(
        remembered == ActivationSettlement::AlreadySettled,
        "a settlement recorded before a restart was forgotten after it",
    )?;
    assert(good ==> authority.items() =~= base.insert(alpha@, again));
    let impostor = ActivationHandle::new(
        alpha.duplicate(),
        worker_b.duplicate(),
        resumed.token(),
    );
    let refused = authority.release(
        &impostor,
        ActivationDisposition::Complete,
        BASE_MS + 10_001,
    )?;
    require(
        refused == ActivationSettlement::Fenced,
        "a worker presenting another worker's live token was allowed to settle",
    )?;
    assert(good ==> authority.items() =~= base.insert(alpha@, again));
    let _ = authority.release(
        &resumed.handle(),
        ActivationDisposition::Complete,
        BASE_MS + 10_002,
    )?;
    proof {
        if good {
            let done = done_item(again, (BASE_MS + 10_002) as u64);
            assert(authority.items() =~= base.insert(alpha@, done));
            assert(settled_by(done, (BASE_MS + 10_002) as u64));
        }
    }
    Ok(())
}

/// Whether an item was completed once by a fence and is scheduled again.
spec fn restartable(
    items: Items,
    id: Seq<char>,
    handle: crate::activation::HandleView,
) -> bool {
    &&& items.dom().contains(id)
    &&& handle.item_id == id
    &&& handle.token == 1
    &&& items[id].item_id == id
    &&& items[id].due_at_ms == Some((BASE_MS + 10_000) as u64)
    &&& items[id].attempt == 1
    &&& items[id].fencing_token == 1
    &&& items[id].settled_token == Some(1u64)
    &&& items[id].lease is None
}

/// Retention removes settled work and nothing else.
fn check_retention<A: ActivationAuthority>(
    authority: &mut A,
    alpha: &ActivationItemId,
    zeta: &ActivationItemId,
    epsilon: &ActivationItemId,
) -> (r: Result<(), ActivationError>)
    ensures
        ({
            let items = old(authority).items();
            old(authority).lawful() && items.dom().finite() && alpha@ != epsilon@
                && items.dom().contains(alpha@) && items.dom().contains(epsilon@)
                && items.dom().contains(zeta@) && purgeable(
                items[alpha@],
                (BASE_MS + 100_000) as u64,
            ) && purgeable(items[epsilon@], (BASE_MS + 100_000) as u64) && items[zeta@].due_at_ms
                == Some((BASE_MS + 20_000) as u64) && items[zeta@].settled_at_ms is None && (
            forall|id: Seq<char>| #[trigger]
                items.dom().contains(id) ==> !purgeable(items[id], BASE_MS)) ==> r is Ok
                && final(authority).lawful() && final(authority).items() == kept_on(
                items,
                (BASE_MS + 100_000) as u64,
            )
        }),
        walked(
            |i: int|
                retention_step(
                    final(authority).calls(),
                    old(authority).calls().len() as int,
                    i,
                    zeta@,
                    epsilon@,
                ),
            old(authority).calls(),
            final(authority).calls(),
            4,
            fault(r),
        ),
{
    let ghost items = authority.items();
    let ghost good = authority.lawful() && items.dom().finite() && alpha@ != epsilon@
        && items.dom().contains(alpha@) && items.dom().contains(epsilon@) && items.dom().contains(
        zeta@,
    ) && purgeable(items[alpha@], (BASE_MS + 100_000) as u64) && purgeable(
        items[epsilon@],
        (BASE_MS + 100_000) as u64,
    ) && items[zeta@].due_at_ms == Some((BASE_MS + 20_000) as u64) && items[zeta@].settled_at_ms
        is None && (forall|id: Seq<char>| #[trigger]
        items.dom().contains(id) ==> !purgeable(items[id], BASE_MS));
    let early = authority.purge_settled(BASE_MS)?;
    proof {
        if good {
            assert(kept_on(items, BASE_MS) =~= items);
        }
    }
    require(early == 0, "retention removed work that had not settled by the given instant")?;
    let purged = authority.purge_settled(BASE_MS + 100_000)?;
    proof {
        if good {
            let kept = kept_on(items, (BASE_MS + 100_000) as u64);
            let rest = items.dom().remove(alpha@).remove(epsilon@);
            assert(kept.dom().subset_of(rest));
            vstd::set_lib::lemma_len_subset(kept.dom(), rest);
        }
    }
    require(purged >= 2, "retention did not remove settled work")?;
    let gone = authority.inspect(epsilon)?;
    require(gone.is_none(), "retention did not remove settled work")?;
    let kept = match authority.inspect(zeta)? {
        Some(state) => same_number(state.due_at_ms, Some(BASE_MS + 20_000))
            && state.settled_at_ms.is_none(),
        None => false,
    };
    require(kept, "retention removed work that is still scheduled")
}

/// The names of the suite's items are different, and beta comes before delta.
proof fn lemma_names()
    ensures
        visible("alpha"@) && visible("zeta"@) && visible("epsilon"@),
        visible("ordering-beta"@) && visible("ordering-delta"@) && visible("ordering-gamma"@),
        "alpha"@.len() <= 64 && "zeta"@.len() <= 64 && "epsilon"@.len() <= 64,
        "ordering-beta"@.len() <= 64 && "ordering-delta"@.len() <= 64 && "ordering-gamma"@.len()
            <= 64,
        suite_item("alpha"@) != suite_item("zeta"@),
        suite_item("alpha"@) != suite_item("epsilon"@),
        suite_item("zeta"@) != suite_item("epsilon"@),
        suite_item("alpha"@) != suite_item("ordering-beta"@),
        suite_item("alpha"@) != suite_item("ordering-delta"@),
        suite_item("alpha"@) != suite_item("ordering-gamma"@),
        suite_item("epsilon"@) != suite_item("ordering-beta"@),
        suite_item("epsilon"@) != suite_item("ordering-delta"@),
        suite_item("epsilon"@) != suite_item("ordering-gamma"@),
        suite_item("zeta"@) != suite_item("ordering-beta"@),
        suite_item("zeta"@) != suite_item("ordering-delta"@),
        suite_item("zeta"@) != suite_item("ordering-gamma"@),
        suite_item("ordering-beta"@) != suite_item("ordering-delta"@),
        suite_item("ordering-beta"@) != suite_item("ordering-gamma"@),
        suite_item("ordering-delta"@) != suite_item("ordering-gamma"@),
        text_lt(suite_item("ordering-beta"@), suite_item("ordering-delta"@)),
{
    reveal_strlit("conformance.");
    reveal_strlit("alpha");
    reveal_strlit("zeta");
    reveal_strlit("epsilon");
    reveal_strlit("ordering-beta");
    reveal_strlit("ordering-delta");
    reveal_strlit("ordering-gamma");
    assert(visible("conformance."@));
    assert(visible("ordering-beta"@));
    assert(visible("ordering-delta"@));
    assert(suite_item("alpha"@)[12] == 'a');
    assert(suite_item("zeta"@)[12] == 'z');
    assert(suite_item("epsilon"@)[12] == 'e');
    assert(suite_item("ordering-beta"@)[12] == 'o');
    assert(suite_item("ordering-delta"@)[12] == 'o');
    assert(suite_item("ordering-gamma"@)[12] == 'o');
    let b = suite_item("ordering-beta"@);
    let d = suite_item("ordering-delta"@);
    assert(b[21] == 'b');
    assert(d[21] == 'd');
    assert(suite_item("ordering-gamma"@)[21] == 'g');
    assert forall|i: int| 0 <= i < 21 implies b[i] == d[i] by {
        if i < 12 {
            assert(b[i] == "conformance."@[i]);
            assert(d[i] == "conformance."@[i]);
        } else {
            let k = i - 12;
            assert(b[i] == "ordering-beta"@[k]);
            assert(d[i] == "ordering-delta"@[k]);
            assert(k == 0 || k == 1 || k == 2 || k == 3 || k == 4 || k == 5 || k == 6 || k == 7
                || k == 8);
        }
    }
    assert(visible(b)) by {
        assert forall|i: int| 0 <= i < b.len() implies '!' <= #[trigger] b[i] <= '~' by {
            if i < 12 {
                assert(b[i] == "conformance."@[i]);
            } else {
                assert(b[i] == "ordering-beta"@[i - 12]);
            }
        }
    }
    assert(visible(d)) by {
        assert forall|i: int| 0 <= i < d.len() implies '!' <= #[trigger] d[i] <= '~' by {
            if i < 12 {
                assert(d[i] == "conformance."@[i]);
            } else {
                assert(d[i] == "ordering-delta"@[i - 12]);
            }
        }
    }
    lemma_ascii_before(b, d, 21);
}

/// Texts of visible characters are ordered by their first difference.
proof fn lemma_ascii_before(a: Seq<char>, b: Seq<char>, n: int)
    requires
        visible(a),
        visible(b),
        0 <= n < a.len(),
        n < b.len(),
        forall|i: int| 0 <= i < n ==> a[i] == b[i],
        a[n] < b[n],
    ensures
        text_lt(a, b),
{
    assert(is_ascii_chars(a));
    assert(is_ascii_chars(b));
    is_ascii_chars_encode_utf8(a);
    is_ascii_chars_encode_utf8(b);
    let x = encode_utf8(a);
    let y = encode_utf8(b);
    assert forall|i: int| 0 <= i < n implies x[i] == y[i] by {
        assert(x[i] == a[i] as u8);
        assert(y[i] == b[i] as u8);
    }
    assert(x[n] == a[n] as u8);
    assert(y[n] == b[n] as u8);
    lemma_bytes_before(x, y, n);
}

proof fn lemma_bytes_before(a: Seq<u8>, b: Seq<u8>, n: int)
    requires
        0 <= n < a.len(),
        n < b.len(),
        forall|i: int| 0 <= i < n ==> a[i] == b[i],
        a[n] < b[n],
    ensures
        crate::text::bytes_lt(a, b),
    decreases n,
{
    if n > 0 {
        assert(a[0] == b[0]);
        let x = a.drop_first();
        let y = b.drop_first();
        assert forall|i: int| 0 <= i < n - 1 implies x[i] == y[i] by {
            assert(x[i] == a[i + 1]);
            assert(y[i] == b[i + 1]);
        }
        lemma_bytes_before(x, y, n - 1);
    }
}

/// The payload of some text.
fn payload_of(text: &str) -> (r: Vec<u8>)
    ensures
        r@ == encode_utf8(text@),
{
    crate::digest::bytes_of(text)
}

/// The refusal of an authority that already knows the suite's work.
pub open spec fn not_fresh() -> ActivationFault {
    ActivationFault::Corrupt("conformance: "@ + "a fresh authority already knows a work item"@)
}

/// What a run of the suite leaves behind: the item that was yielded to a later instant. What it
/// completed has been purged.
pub open spec fn suite_remains(items: Items) -> bool {
    &&& items.dom() == set![suite_item("zeta"@)]
    &&& items[suite_item("zeta"@)].due_at_ms == Some((BASE_MS + 20_000) as u64)
    &&& items[suite_item("zeta"@)].settled_at_ms is None
}

/// Runs the contract of activation coordination against an authority that holds nothing yet.
///
/// What it checks is what an unattended supervisor depends on: due work surfaces in due order
/// and never early, exactly one worker holds an item at a time, a superseded worker is refused,
/// a retried completion is an answer and no second execution, and a crashed worker's item
/// returns to the queue with its token advanced. Whatever the authority is, the run keeps to the
/// suite's script, and its outcome is what the script says of the answers. Every lawful authority
/// passes, and is left with what the suite did to it; one that already knows the suite's work is
/// refused.
#[verifier::rlimit(60)]
pub fn run_activation_coordinator_conformance<A: ActivationAuthority>(authority: &mut A) -> (r:
    Result<(), ActivationError>)
    ensures
        suite_walked(old(authority).calls(), final(authority).calls(), fault(r)),
        old(authority).lawful() && old(authority).items() == Items::empty() ==> r is Ok
            && final(authority).lawful() && suite_remains(final(authority).items()),
        old(authority).lawful() && old(authority).items().dom().contains(suite_item("alpha"@))
            ==> fault(r) == Some(not_fresh()),
{
    let ghost good = authority.lawful() && authority.items() == Items::empty();
    let ghost start = authority.calls();
    proof {
        lemma_names();
        reveal_strlit("conformance-worker-a");
        reveal_strlit("conformance-worker-b");
        assert(visible("conformance-worker-a"@));
        assert(visible("conformance-worker-b"@));
        assert("conformance-worker-a"@[19] != "conformance-worker-b"@[19]);
        lemma_visible_identity("worker id"@, "conformance-worker-a"@, 256);
        lemma_visible_identity("worker id"@, "conformance-worker-b"@, 256);
        reveal_strlit("alpha-payload");
        reveal_strlit("alpha-again");
        assert(is_ascii_chars("alpha-payload"@));
        assert(is_ascii_chars("alpha-again"@));
        is_ascii_chars_encode_utf8("alpha-payload"@);
        is_ascii_chars_encode_utf8("alpha-again"@);
    }
    let ghost log = authority.calls();
    let opened = authority.open(ConformanceOpen::Fresh);
    proof {
        lemma_joined(start, log, authority.calls(), 0, 1, fault(opened));
    }
    opened?;
    let worker_a = ActivationWorkerId::new("conformance-worker-a")?;
    let worker_b = ActivationWorkerId::new("conformance-worker-b")?;
    let alpha = item("alpha")?;
    let ghost log = authority.calls();
    let unknown = check_unknown(authority, &alpha, &worker_a);
    proof {
        let now = authority.calls();
        assert forall|i: int| 1 <= i < now.len() - start.len() - 1 implies #[trigger] suite_step(
            now,
            start.len() as int,
            i,
        ) is Right by {
            assert(placed(i - 1));
        }
        lemma_joined(start, log, now, 1, 3, fault(unknown));
    }
    unknown?;
    let due: u64 = BASE_MS + 100;
    let payload = payload_of("alpha-payload");
    let ghost log = authority.calls();
    let waking = check_waking(authority, &alpha, &worker_a, &payload, due);
    proof {
        let now = authority.calls();
        assert forall|i: int| 4 <= i < now.len() - start.len() - 1 implies #[trigger] suite_step(
            now,
            start.len() as int,
            i,
        ) is Right by {
            assert(placed(i - 4));
        }
        lemma_joined(start, log, now, 4, 6, fault(waking));
    }
    waking?;
    let ghost log = authority.calls();
    let contention = check_contention(authority, &alpha, &worker_a, &worker_b, &payload, due);
    proof {
        let now = authority.calls();
        assert forall|i: int| 10 <= i < now.len() - start.len() - 1 implies #[trigger] suite_step(
            now,
            start.len() as int,
            i,
        ) is Right by {
            assert(placed(i - 10));
        }
        lemma_joined(start, log, now, 10, 7, fault(contention));
    }
    let (won, grant) = contention?;
    let loser = if won {
        worker_b.duplicate()
    } else {
        worker_a.duplicate()
    };
    let ghost log = authority.calls();
    let fences = check_fences(authority, &alpha, &worker_b, &loser, &grant, due);
    proof {
        let now = authority.calls();
        assert forall|i: int| 17 <= i < now.len() - start.len() - 1 implies #[trigger] suite_step(
            now,
            start.len() as int,
            i,
        ) is Right by {
            assert(placed(i - 17));
        }
        lemma_joined(start, log, now, 17, 12, fault(fences));
    }
    fences?;
    let later = ActivationWake::new(alpha.duplicate(), BASE_MS + 10_000).with_payload(
        payload_of("alpha-again"),
    )?;
    let ghost log = authority.calls();
    let rescheduled = match authority.wake(&later, due + 704) {
        Ok(outcome) => require(
            outcome == ActivationWakeOutcome::Rescheduled,
            "waking a settled identity did not reschedule it",
        ),
        Err(e) => Err(e),
    };
    proof {
        lemma_joined(start, log, authority.calls(), 29, 1, fault(rescheduled));
    }
    rescheduled?;
    let ghost base = authority.items();
    assert(good ==> restartable(base, alpha@, grant@.handle()) && base.dom() =~= set![alpha@]);
    let beta = item("ordering-beta")?;
    let delta = item("ordering-delta")?;
    let gamma = item("ordering-gamma")?;
    proof {
        if good {
            assert(quiet(base, (BASE_MS + 400) as u64));
            assert(quiet(base, (BASE_MS + 600) as u64));
        }
    }
    let ghost log = authority.calls();
    let ordered = ordering(authority, &worker_a, &beta, &delta, &gamma);
    proof {
        let now = authority.calls();
        assert forall|i: int| 30 <= i < now.len() - start.len() - 1 implies #[trigger] suite_step(
            now,
            start.len() as int,
            i,
        ) is Right by {
            assert(placed(i - 30));
        }
        lemma_joined(start, log, now, 30, 14, fault(ordered));
    }
    ordered?;
    let epsilon = item("epsilon")?;
    let ghost log = authority.calls();
    let expired = expiry(authority, &epsilon, &worker_a, &worker_b);
    proof {
        let now = authority.calls();
        assert forall|i: int| 44 <= i < now.len() - start.len() - 1 implies #[trigger] suite_step(
            now,
            start.len() as int,
            i,
        ) is Right by {
            assert(placed(i - 44));
        }
        lemma_joined(start, log, now, 44, 12, fault(expired));
    }
    expired?;
    let zeta = item("zeta")?;
    let ghost log = authority.calls();
    let yielded = check_yield(authority, &zeta, &worker_a);
    proof {
        let now = authority.calls();
        assert forall|i: int| 56 <= i < now.len() - start.len() - 1 implies #[trigger] suite_step(
            now,
            start.len() as int,
            i,
        ) is Right by {
            assert(placed(i - 56));
        }
        lemma_joined(start, log, now, 56, 8, fault(yielded));
    }
    yielded?;
    assert(good ==> restartable(authority.items(), alpha@, grant@.handle()));
    let handle = grant.handle();
    let ghost log = authority.calls();
    let restarted = check_restart(
        authority,
        &alpha,
        &zeta,
        &epsilon,
        &worker_a,
        &worker_b,
        &handle,
    );
    proof {
        let now = authority.calls();
        assert forall|i: int| 64 <= i < now.len() - start.len() - 1 implies #[trigger] suite_step(
            now,
            start.len() as int,
            i,
        ) is Right by {
            assert(placed(i - 64));
        }
        lemma_joined(start, log, now, 64, 12, fault(restarted));
    }
    restarted?;
    proof {
        if good {
            assert forall|id: Seq<char>| #[trigger]
                authority.items().dom().contains(id) implies !purgeable(
                authority.items()[id],
                BASE_MS,
            ) by {}
        }
    }
    let ghost last = authority.items();
    let ghost log = authority.calls();
    let result = check_retention(authority, &alpha, &zeta, &epsilon);
    proof {
        let now = authority.calls();
        assert forall|i: int| 76 <= i < now.len() - start.len() - 1 implies #[trigger] suite_step(
            now,
            start.len() as int,
            i,
        ) is Right by {
            assert(placed(i - 76));
        }
        lemma_joined(start, log, now, 76, 4, fault(result));
    }
    proof {
        if good {
            let until = (BASE_MS + 100_000) as u64;
            let kept = kept_on(last, until);
            assert forall|id: Seq<char>| kept.dom().contains(id) == (id == zeta@) by {
                if last.dom().contains(id) && id != zeta@ {
                    assert(id == alpha@ || id == beta@ || id == delta@ || id == gamma@ || id
                        == epsilon@);
                    assert(purgeable(last[id], until));
                }
            }
            assert(kept.dom() =~= set![zeta@]);
        }
    }
    result
}

} // verus!
