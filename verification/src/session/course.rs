//! The course of a session: how turns are reserved and discarded, what a cursor is given, and what
//! rewinds, forks and recoveries owe to the ledger.

use crate::session::evidence::{
    binding_name, binding_outcome, BindingView, SessionBinding, TurnBindingKey, TurnBindingReceipt,
};
use crate::session::journal::{behind, contiguous, observed, replayed, EventView};
use crate::session::ledger::{
    active_len, discard_outcome, first_turn, reserve_outcome, TurnStateView, TurnView,
};
use crate::session::rewind::{
    begin_outcome, executed_fault, plan_outcome, rewind_step, status_outcome, target_at, BeginView,
    RewindActionView, RewindEventView, RewindIdentity, RewindRequestView, RewindResultView,
    RewindStatusView, StageView,
};
use crate::session::route::{fork_outcome, ForkCircumstances};
use crate::session::Fault;
use crate::text::{is_blank, option_view};
use vstd::prelude::*;

verus! {

proof fn lemma_active_joined(a: Seq<TurnView>, b: Seq<TurnView>)
    ensures
        active_len(a + b) == active_len(a) + active_len(b),
    decreases b.len(),
{
    if b.len() == 0 {
        assert(a + b =~= a);
    } else {
        assert((a + b).drop_last() =~= a + b.drop_last());
        lemma_active_joined(a, b.drop_last());
    }
}

/// The active timeline counts the turns that are not discarded: one turn counts once unless it is
/// discarded, and two runs of turns count what each of them does.
pub proof fn law_active_turns_are_those_kept(a: Seq<TurnView>, b: Seq<TurnView>, turn: TurnView)
    ensures
        active_len(Seq::empty()) == 0,
        active_len(seq![turn]) == (if turn.state is Discarded {
            0nat
        } else {
            1nat
        }),
        active_len(a + b) == active_len(a) + active_len(b),
{
    lemma_active_joined(a, b);
    assert(seq![turn].drop_last() =~= Seq::empty());
    assert(active_len(seq![turn].drop_last()) == 0);
}

/// A turn is reserved exactly where no turn is pending and none has its identifier. It stands
/// behind all the turns, which stay as they were, pending, with the given identity, at the number
/// of turns that are not discarded.
pub proof fn law_turns_are_reserved_behind_settled_ones(
    turns: Seq<TurnView>,
    turn_id: Seq<char>,
    prompt_digest: Seq<char>,
)
    requires
        turns.len() <= u64::MAX,
    ensures
        ({
            let answer = reserve_outcome(turns, turn_id, prompt_digest);
            &&& answer is Ok <==> (forall|i: int|
                0 <= i < turns.len() ==> !((#[trigger] turns[i]).state is Pending)
                    && turns[i].turn_id != turn_id)
            &&& answer matches Ok((after, index)) ==> {
                &&& after.len() == turns.len() + 1
                &&& forall|i: int| 0 <= i < turns.len() ==> #[trigger] after[i] == turns[i]
                &&& after[turns.len() as int].turn_id == turn_id
                &&& after[turns.len() as int].prompt_digest == prompt_digest
                &&& after[turns.len() as int].state is Pending
                &&& after[turns.len() as int].runtime_prompt_index == index
                &&& index == active_len(turns)
            }
        }),
{
    crate::session::ledger::lemma_active_len(turns);
    let answer = reserve_outcome(turns, turn_id, prompt_digest);
    if answer is Ok {
        assert forall|i: int| 0 <= i < turns.len() implies !((#[trigger] turns[i]).state is Pending)
            && turns[i].turn_id != turn_id by {}
    }
}

/// A known turn is discarded exactly where the session is loaded and idle, the turn has the given
/// identity and only discarded turns stand behind it. Then that turn alone changes, and of it the
/// state alone.
pub proof fn law_known_turns_are_discarded_from_the_end(
    turns: Seq<TurnView>,
    resident: bool,
    active: bool,
    prompt_digest: Seq<char>,
    index: u64,
    p: int,
)
    requires
        0 <= p < turns.len(),
        forall|i: int| 0 <= i < p ==> (#[trigger] turns[i]).turn_id != turns[p].turn_id,
    ensures
        ({
            let answer = discard_outcome(
                turns,
                resident,
                active,
                turns[p].turn_id,
                prompt_digest,
                index,
            );
            &&& answer is Ok <==> resident && !active && turns[p].prompt_digest == prompt_digest
                && turns[p].runtime_prompt_index == index && (forall|i: int|
                p < i < turns.len() ==> (#[trigger] turns[i]).state is Discarded)
            &&& answer matches Ok(after) ==> {
                &&& after.len() == turns.len()
                &&& forall|i: int|
                    0 <= i < turns.len() && i != p ==> #[trigger] after[i] == turns[i]
                &&& after[p].state is Discarded
                &&& after[p].turn_id == turns[p].turn_id
                &&& after[p].prompt_digest == prompt_digest
                &&& after[p].runtime_prompt_index == index
            }
        }),
{
    let id = turns[p].turn_id;
    assert(first_turn(turns, id, p));
    let q = choose|q: int| first_turn(turns, id, q);
    assert(first_turn(turns, id, q));
    assert(turns[q].turn_id == id);
    assert(p == q);
}

/// A turn that the ledger does not know is discarded exactly where the session is loaded and idle
/// and the turn follows the active timeline. It is recorded, discarded, behind all the turns, which
/// stay as they were.
pub proof fn law_unknown_turns_are_discarded_at_the_end(
    turns: Seq<TurnView>,
    resident: bool,
    active: bool,
    turn_id: Seq<char>,
    prompt_digest: Seq<char>,
    index: u64,
)
    requires
        forall|i: int| 0 <= i < turns.len() ==> (#[trigger] turns[i]).turn_id != turn_id,
    ensures
        ({
            let answer = discard_outcome(turns, resident, active, turn_id, prompt_digest, index);
            &&& answer is Ok <==> resident && !active && index == active_len(turns)
            &&& answer matches Ok(after) ==> {
                &&& after.len() == turns.len() + 1
                &&& forall|i: int| 0 <= i < turns.len() ==> #[trigger] after[i] == turns[i]
                &&& after[turns.len() as int].turn_id == turn_id
                &&& after[turns.len() as int].prompt_digest == prompt_digest
                &&& after[turns.len() as int].runtime_prompt_index == index
                &&& after[turns.len() as int].state is Discarded
            }
        }),
{
}

/// A cursor is answered exactly where it is not beyond the end. It is told the journal's end, how
/// many events are retained and the number of the oldest, and whether an event behind the cursor is
/// gone; the events given are exactly the retained ones behind the cursor. A replay is refused for
/// a gap exactly where one is gone, with the cursor and the numbers that can be had.
pub proof fn law_cursors_see_what_is_retained(retained: Seq<EventView>, end: u64, after: u64)
    requires
        contiguous(retained, end),
        end < u64::MAX,
    ensures
        ({
            let answer = observed(retained, end, after);
            let gone = end - retained.len();
            &&& answer is Ok <==> after <= end
            &&& answer matches Ok(seen) ==> {
                &&& seen.inclusive_end_sequence == end
                &&& seen.retained_count == retained.len()
                &&& seen.oldest_retained_sequence == gone + 1
                &&& seen.truncated <==> after < gone
                &&& after <= gone ==> seen.events == retained
                &&& after >= gone ==> seen.events == retained.skip(after - gone)
            }
            &&& (replayed(retained, end, after) matches Err(Fault::EventGap { .. })) <==> after
                < gone
            &&& replayed(retained, end, after) matches Err(
                Fault::EventGap { requested, oldest_available, newest },
            ) ==> requested == after && oldest_available == gone + 1 && newest == end
        }),
{
    let gone = (end - retained.len()) as int;
    if after <= end {
        lemma_behind_tail(retained, end, after, retained.len() as int);
        assert(retained.take(retained.len() as int) =~= retained);
        if after <= gone {
            assert(retained.subrange(0, retained.len() as int) =~= retained);
        } else {
            assert(retained.subrange(after - gone, retained.len() as int) =~= retained.skip(
                after - gone,
            ));
        }
        if after == gone {
            assert(retained.skip(0) =~= retained);
        }
    }
}

proof fn lemma_behind_tail(retained: Seq<EventView>, end: u64, after: u64, n: int)
    requires
        contiguous(retained, end),
        after <= end,
        0 <= n <= retained.len(),
    ensures
        ({
            let cut = after - (end - retained.len());
            behind(retained.take(n), after) == retained.subrange(
                if cut < 0 {
                    0
                } else if n < cut {
                    n
                } else {
                    cut
                },
                n,
            )
        }),
    decreases n,
{
    reveal(Seq::filter);
    if n > 0 {
        lemma_behind_tail(retained, end, after, n - 1);
        assert(retained.take(n).drop_last() =~= retained.take(n - 1));
        assert(retained.take(n).last() == retained[n - 1]);
        let cut = after - (end - retained.len());
        assert(behind(retained.take(n), after) =~= retained.subrange(
            if cut < 0 {
                0
            } else if n < cut {
                n
            } else {
                cut
            },
            n,
        ));
    } else {
        let cut = after - (end - retained.len());
        assert(behind(retained.take(0), after) =~= retained.subrange(0, 0));
    }
}

/// An operation is applied exactly where a receipt of it is stored, pending where only an intent
/// is, and absent where neither is; a document of another operation or session is refused.
pub proof fn law_documents_tell_how_far_a_rewind_came(
    session_id: Seq<char>,
    operation_id: Seq<char>,
    receipt: Option<RewindIdentity>,
    intent: Option<RewindIdentity>,
)
    ensures
        ({
            let status = status_outcome(session_id, operation_id, receipt, intent);
            let known = if receipt is Some {
                receipt
            } else {
                intent
            };
            &&& status is Ok <==> known is None || (known->Some_0.operation_id == operation_id
                && known->Some_0.session_id == session_id)
            &&& (status matches Ok(RewindStatusView::Applied(_))) <==> status is Ok && receipt
                is Some
            &&& (status matches Ok(RewindStatusView::Pending(_))) <==> status is Ok && receipt
                is None && intent is Some
            &&& status matches Ok(RewindStatusView::Applied(of)) ==> receipt == Some(of)
            &&& status matches Ok(RewindStatusView::Pending(of)) ==> intent == Some(of)
        }),
{
}

/// A rewind begins only in a loaded, idle session and under an operation that has a name. One that
/// was applied before is answered with its receipt, and one that is pending goes on under its own
/// identity, exactly where the request is the same; a new one goes on with none.
pub proof fn law_rewinds_begin_where_they_stopped(
    request: RewindRequestView,
    resident: bool,
    active: bool,
    status: RewindStatusView,
)
    ensures
        ({
            let answer = begin_outcome(request, resident, active, status);
            let known = match status {
                RewindStatusView::Applied(known) => Some(known),
                RewindStatusView::Pending(known) => Some(known),
                RewindStatusView::Absent => None,
            };
            let same = known is None || (known->Some_0.session_id == request.session_id
                && known->Some_0.target_prompt_index == request.target_prompt_index
                && known->Some_0.recovery_turn_id == (match request.unsettled {
                Some((turn, _)) => Some(turn),
                None => None,
            }) && known->Some_0.recovery_prompt_digest == (match request.unsettled {
                Some((_, digest)) => Some(digest),
                None => None,
            }));
            &&& answer is Ok <==> !is_blank(request.operation_id) && resident && !active && same
            &&& (answer matches Ok(BeginView::Replay(_))) <==> answer is Ok && status is Applied
            &&& answer matches Ok(BeginView::Replay(of)) ==> known == Some(of)
            &&& answer matches Ok(BeginView::Go(of)) ==> of == known
        }),
{
}

/// What a request goes back to: the identity of a rewind names the operation and the session of its
/// request and a turn of the ledger at the asked place. That turn is completed where the request
/// recovers nothing, and then no turn is pending; else it is the turn that the request recovers,
/// not discarded, with nothing pending before it and only discarded turns behind it. A pending
/// rewind keeps the identity that it has.
pub proof fn law_rewinds_go_back_to_a_turn_of_the_ledger(
    request: RewindRequestView,
    pending: Option<RewindIdentity>,
    turns: Seq<TurnView>,
)
    ensures
        plan_outcome(request, pending, turns) matches Ok(identity) ==> {
            &&& identity.operation_id == request.operation_id
            &&& identity.session_id == request.session_id
            &&& identity.target_prompt_index == request.target_prompt_index
            &&& pending is Some ==> pending == Some(identity)
            &&& request.unsettled is None ==> identity.recovery_turn_id is None
                && identity.recovery_prompt_digest is None && (forall|i: int|
                0 <= i < turns.len() ==> !((#[trigger] turns[i]).state is Pending))
            &&& request.unsettled matches Some((turn, digest)) ==> identity.recovery_turn_id
                == Some(turn) && identity.recovery_prompt_digest == Some(digest)
            &&& exists|p: int|
                0 <= p < turns.len() && (#[trigger] turns[p]).turn_id == identity.target_turn_id
                    && turns[p].prompt_digest == identity.target_prompt_digest
                    && turns[p].runtime_prompt_index == request.target_prompt_index && (pending
                    is None && request.unsettled is None ==> turns[p].state is Completed) && (pending
                    is None && request.unsettled is Some ==> !(turns[p].state is Discarded)
                    && turns[p].turn_id == request.unsettled->Some_0.0 && turns[p].prompt_digest
                    == request.unsettled->Some_0.1) && (request.unsettled is Some ==> (forall|
                    i: int,
                |
                    0 <= i < p ==> !((#[trigger] turns[i]).state is Pending)) && (forall|i: int|
                    p < i < turns.len() ==> (#[trigger] turns[i]).state is Discarded))
        },
{
    if plan_outcome(request, pending, turns) is Ok {
        let p = choose|p: int| target_at(request, pending, turns, p);
        assert(target_at(request, pending, turns, p));
        if request.unsettled is None {
            assert forall|i: int| 0 <= i < turns.len() implies !((#[trigger] turns[i]).state
                is Pending) by {}
        }
        assert(0 <= p < turns.len() && turns[p].turn_id == turns[p].turn_id);
    }
}

/// A native rewind is accepted exactly where it succeeded, went to the target in the mode that
/// touches no file, touched none, met no conflict and named the prompt that the ledger has there.
pub proof fn law_native_rewinds_touch_no_file(
    result: RewindResultView,
    target: u64,
    expected_digest: Seq<char>,
)
    ensures
        executed_fault(result, target, expected_digest) is None <==> {
            &&& result.success
            &&& result.target_prompt_index == target
            &&& result.mode == "conversation_only"@
            &&& result.reverted_files.len() == 0
            &&& result.clean_files.len() == 0
            &&& result.conflicts.len() == 0
            &&& result.prompt_text_digest == Some(expected_digest)
        },
{
}

/// A rewind that was accepted discards, in the ledger that it saves, every turn at its target's
/// place or behind it, and no other; nothing else of any turn changes. Its receipt, its clearing
/// and its answer are of the identity that it set out with.
pub proof fn law_rewinds_finish_as_they_set_out(
    request: RewindRequestView,
    intent: RewindIdentity,
    turns: Seq<TurnView>,
)
    ensures
        ({
            let s0 = rewind_step(
                request,
                StageView::Syncing { intent, turns },
                RewindEventView::Synced,
            );
            let s1 = rewind_step(request, s0->Ok_0.0, RewindEventView::LedgerSaved);
            let s2 = rewind_step(request, s1->Ok_0.0, RewindEventView::ReceiptSaved);
            let s3 = rewind_step(request, s2->Ok_0.0, RewindEventView::IntentRemoved);
            let saved = s0->Ok_0.1->SaveLedger_0;
            &&& s0 is Ok && s0->Ok_0.1 is SaveLedger
            &&& saved.len() == turns.len()
            &&& forall|i: int|
                0 <= i < turns.len() ==> {
                    &&& (#[trigger] saved[i]).turn_id == turns[i].turn_id
                    &&& saved[i].prompt_digest == turns[i].prompt_digest
                    &&& saved[i].runtime_prompt_index == turns[i].runtime_prompt_index
                    &&& turns[i].runtime_prompt_index >= intent.target_prompt_index
                        ==> saved[i].state is Discarded
                    &&& turns[i].runtime_prompt_index < intent.target_prompt_index
                        ==> saved[i].state == turns[i].state
                }
            &&& s1 is Ok && s1->Ok_0.1 == RewindActionView::SaveReceipt(intent)
            &&& s2 is Ok && s2->Ok_0.1 == (RewindActionView::RemoveIntent {
                operation_id: intent.operation_id,
            })
            &&& s3 is Ok && s3->Ok_0.1 == RewindActionView::Finish(intent)
        }),
{
}

/// A fork takes the lease of its target always, that of its source exactly where the source is not
/// loaded, and no other. It is refused exactly where source and target are one, where it would
/// verify without a store, or where the store and the lease of the source disagree.
pub proof fn law_forks_take_the_leases_they_need(
    source: Seq<char>,
    target: Seq<char>,
    at: ForkCircumstances,
)
    ensures
        ({
            let answer = fork_outcome(source, target, at);
            &&& answer is Ok <==> source != target && (at.create_or_verify ==> at.has_store) && (
            at.has_store ==> (at.source_resident <==> at.source_held))
            &&& answer matches Ok(leases) ==> {
                &&& leases.contains(target)
                &&& leases.contains(source) <==> !at.source_resident
                &&& leases.len() == (if at.source_resident {
                    1nat
                } else {
                    2nat
                })
                &&& leases.no_duplicates()
            }
        }),
{
    let answer = fork_outcome(source, target, at);
    if answer is Ok {
        let leases = answer->Ok_0;
        if at.source_resident {
            assert(leases[0] == target);
        } else if leases[0] == source {
            assert(leases[1] == target);
        } else {
            assert(leases[0] == target && leases[1] == source);
        }
    }
}

/// A turn's record counts only where the session is bound as the key says and the record is of this
/// session, turn and key. A pending turn is then completed with the record's outcome and
/// settlement, and nothing else changes; a completed one must agree with the record, and a
/// discarded one has none. Without a record nothing is known.
pub proof fn law_recovery_settles_by_the_record(
    session_id: Seq<char>,
    binding: SessionBinding,
    key: TurnBindingKey,
    turns: Seq<TurnView>,
    entry_usage: Option<Seq<char>>,
    receipt: Option<TurnBindingReceipt>,
    p: int,
)
    requires
        0 <= p < turns.len(),
        turns[p].turn_id == key.turn_id@,
        forall|i: int| 0 <= i < p ==> (#[trigger] turns[i]).turn_id != key.turn_id@,
    ensures
        ({
            let answer = binding_outcome(session_id, binding, key, turns, entry_usage, receipt);
            let turn = turns[p];
            let fits = option_view(binding.harness_digest) == Some(key.snapshot_digest@)
                && binding.model@ == key.model@ && option_view(binding.reasoning) == option_view(
                key.reasoning,
            ) && turn.prompt_digest == key.prompt_digest@ && turn.runtime_prompt_index
                == key.runtime_prompt_index;
            let record = receipt->Some_0;
            let matched = fits && receipt is Some && record.session_id@ == session_id
                && record.turn_id@ == key.turn_id@ && record.prompt_digest@ == key.prompt_digest@
                && record.runtime_prompt_index == key.runtime_prompt_index
                && record.snapshot_digest@ == key.snapshot_digest@ && record.model@ == key.model@
                && option_view(record.reasoning) == option_view(key.reasoning);
            let agrees = turn.state == (TurnStateView::Completed {
                outcome: record.outcome,
                settlement_id: record.settlement_id@,
            }) && entry_usage == Some(record.usage@);
            &&& answer is Ok <==> (fits && receipt is None) || (matched && (turn.state is Pending
                || agrees))
            &&& (answer matches Ok(BindingView::Absent)) <==> fits && receipt is None
            &&& (answer matches Ok(BindingView::Complete { settled }) && settled is None) <==> matched
                && agrees
            &&& answer matches Ok(BindingView::Complete { settled: Some(after) }) ==> {
                &&& turn.state is Pending
                &&& after.len() == turns.len()
                &&& forall|i: int|
                    0 <= i < turns.len() && i != p ==> #[trigger] after[i] == turns[i]
                &&& after[p].turn_id == turn.turn_id
                &&& after[p].prompt_digest == turn.prompt_digest
                &&& after[p].runtime_prompt_index == turn.runtime_prompt_index
                &&& after[p].state == (TurnStateView::Completed {
                    outcome: record.outcome,
                    settlement_id: record.settlement_id@,
                })
            }
        }),
{
    let id = key.turn_id@;
    assert(first_turn(turns, id, p));
    let q = choose|q: int| first_turn(turns, id, q);
    assert(first_turn(turns, id, q));
    assert(turns[q].turn_id == id);
    assert(p == q);
}

/// Two turns are bound under one name only where they are one turn of one session, as long as
/// neither session's name holds a NUL.
pub proof fn law_turns_are_bound_under_their_own_name(
    session: Seq<char>,
    turn: Seq<char>,
    other_session: Seq<char>,
    other_turn: Seq<char>,
)
    requires
        !session.contains('\0'),
        !other_session.contains('\0'),
        binding_name(session, turn) == binding_name(other_session, other_turn),
    ensures
        session == other_session,
        turn == other_turn,
{
    reveal_strlit("\0");
    let a = binding_name(session, turn);
    let b = binding_name(other_session, other_turn);
    let n = session.len() as int;
    let m = other_session.len() as int;
    assert(a[n] == '\0');
    assert(b[m] == '\0');
    if n < m {
        assert(b[n] == other_session[n]);
        assert(other_session.contains(other_session[n]));
    }
    if m < n {
        assert(a[m] == session[m]);
        assert(session.contains(session[m]));
    }
    assert(a.take(n) =~= session);
    assert(b.take(m) =~= other_session);
    assert(a.skip(n + 1) =~= turn);
    assert(b.skip(m + 1) =~= other_turn);
}

} // verus!
