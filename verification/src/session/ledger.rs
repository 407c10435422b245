//! The durable turn ledger of a session.

use crate::digest::{be_bytes, be_bytes_of, bytes_of, digest_of_fields, field_views, fields_digest};
use crate::session::{fault, operation, require_resident, Error, Fault, TurnOutcome};
use crate::text::same_text;
use vstd::prelude::*;
use vstd::utf8::encode_utf8;

verus! {

/// Where a turn stands.
#[derive(Debug, PartialEq, Eq)]
pub enum LedgerTurnState {
    Pending,
    Completed { outcome: TurnOutcome, settlement_id: String },
    Discarded,
}

/// What a [`LedgerTurnState`] says.
pub enum TurnStateView {
    Pending,
    Completed { outcome: TurnOutcome, settlement_id: Seq<char> },
    Discarded,
}

impl View for LedgerTurnState {
    type V = TurnStateView;

    open spec fn view(&self) -> TurnStateView {
        match self {
            LedgerTurnState::Pending => TurnStateView::Pending,
            LedgerTurnState::Completed { outcome, settlement_id } => TurnStateView::Completed {
                outcome: *outcome,
                settlement_id: settlement_id@,
            },
            LedgerTurnState::Discarded => TurnStateView::Discarded,
        }
    }
}

impl LedgerTurnState {
    /// A second copy of the state.
    pub fn duplicate(&self) -> (r: LedgerTurnState)
        ensures
            r@ == self@,
    {
        match self {
            LedgerTurnState::Pending => LedgerTurnState::Pending,
            LedgerTurnState::Completed { outcome, settlement_id } => LedgerTurnState::Completed {
                outcome: *outcome,
                settlement_id: settlement_id.clone(),
            },
            LedgerTurnState::Discarded => LedgerTurnState::Discarded,
        }
    }

    pub fn is_pending(&self) -> (r: bool)
        ensures
            r == (self@ is Pending),
    {
        match self {
            LedgerTurnState::Pending => true,
            _ => false,
        }
    }

    pub fn is_discarded(&self) -> (r: bool)
        ensures
            r == (self@ is Discarded),
    {
        match self {
            LedgerTurnState::Discarded => true,
            _ => false,
        }
    }

    pub fn is_completed(&self) -> (r: bool)
        ensures
            r == (self@ is Completed),
    {
        match self {
            LedgerTurnState::Completed { .. } => true,
            _ => false,
        }
    }
}

/// One turn of the ledger.
#[derive(Debug, PartialEq, Eq)]
pub struct SessionLedgerEntry {
    pub turn_id: String,
    pub prompt_digest: String,
    pub runtime_prompt_index: u64,
    pub state: LedgerTurnState,
}

/// What a [`SessionLedgerEntry`] says.
pub struct TurnView {
    pub turn_id: Seq<char>,
    pub prompt_digest: Seq<char>,
    pub runtime_prompt_index: u64,
    pub state: TurnStateView,
}

impl View for SessionLedgerEntry {
    type V = TurnView;

    open spec fn view(&self) -> TurnView {
        TurnView {
            turn_id: self.turn_id@,
            prompt_digest: self.prompt_digest@,
            runtime_prompt_index: self.runtime_prompt_index,
            state: self.state@,
        }
    }
}

impl SessionLedgerEntry {
    /// A second copy of the entry.
    pub fn duplicate(&self) -> (r: SessionLedgerEntry)
        ensures
            r@ == self@,
    {
        SessionLedgerEntry {
            turn_id: self.turn_id.clone(),
            prompt_digest: self.prompt_digest.clone(),
            runtime_prompt_index: self.runtime_prompt_index,
            state: self.state.duplicate(),
        }
    }
}

/// The turns of a session, in the order in which they began.
#[derive(Debug, PartialEq, Eq)]
pub struct SessionLedger {
    pub entries: Vec<SessionLedgerEntry>,
}

/// What each turn says.
pub open spec fn turn_views(entries: Seq<SessionLedgerEntry>) -> Seq<TurnView> {
    Seq::new(entries.len(), |i: int| entries[i]@)
}

impl View for SessionLedger {
    type V = Seq<TurnView>;

    open spec fn view(&self) -> Seq<TurnView> {
        turn_views(self.entries@)
    }
}

impl Default for SessionLedger {
    fn default() -> (r: SessionLedger)
        ensures
            r@ == Seq::<TurnView>::empty(),
    {
        let r = SessionLedger { entries: Vec::new() };
        proof {
            assert(r@ =~= Seq::<TurnView>::empty());
        }
        r
    }
}

/// Whether some turn is pending.
pub open spec fn has_pending(turns: Seq<TurnView>) -> bool {
    exists|i: int| 0 <= i < turns.len() && (#[trigger] turns[i]).state is Pending
}

/// Whether some turn has the identifier.
pub open spec fn has_turn(turns: Seq<TurnView>, id: Seq<char>) -> bool {
    exists|i: int| 0 <= i < turns.len() && (#[trigger] turns[i]).turn_id == id
}

/// The number of turns that are not discarded: the length of the active timeline.
pub open spec fn active_len(turns: Seq<TurnView>) -> nat
    decreases turns.len(),
{
    if turns.len() == 0 {
        0
    } else {
        active_len(turns.drop_last()) + if turns.last().state is Discarded {
            0nat
        } else {
            1nat
        }
    }
}

/// Whether `p` is the position of the first turn with the identifier.
pub open spec fn first_turn(turns: Seq<TurnView>, id: Seq<char>, p: int) -> bool {
    &&& 0 <= p < turns.len()
    &&& turns[p].turn_id == id
    &&& forall|i: int| 0 <= i < p ==> (#[trigger] turns[i]).turn_id != id
}

/// Whether every turn behind `p` is discarded.
pub open spec fn tail_discarded(turns: Seq<TurnView>, p: int) -> bool {
    forall|i: int| p < i < turns.len() ==> (#[trigger] turns[i]).state is Discarded
}

pub proof fn lemma_active_len(turns: Seq<TurnView>)
    ensures
        active_len(turns) <= turns.len(),
    decreases turns.len(),
{
    if turns.len() > 0 {
        lemma_active_len(turns.drop_last());
    }
}

impl SessionLedger {
    /// A second copy of the ledger.
    pub fn duplicate(&self) -> (r: SessionLedger)
        ensures
            r@ == self@,
    {
        let mut entries: Vec<SessionLedgerEntry> = Vec::new();
        let mut i: usize = 0;
        while i < self.entries.len()
            invariant
                i <= self.entries@.len(),
                entries@.len() == i,
                forall|j: int| 0 <= j < i ==> (#[trigger] entries@[j])@ == self.entries@[j]@,
            decreases self.entries@.len() - i,
        {
            entries.push(self.entries[i].duplicate());
            i += 1;
        }
        let r = SessionLedger { entries };
        proof {
            assert(r@ =~= self@);
        }
        r
    }

    /// Whether some turn is pending.
    pub fn any_pending(&self) -> (r: bool)
        ensures
            r == has_pending(self@),
    {
        let mut i: usize = 0;
        while i < self.entries.len()
            invariant
                i <= self.entries@.len(),
                forall|j: int| 0 <= j < i ==> !((#[trigger] self@[j]).state is Pending),
            decreases self.entries@.len() - i,
        {
            if self.entries[i].state.is_pending() {
                assert(self@[i as int].state is Pending);
                return true;
            }
            i += 1;
        }
        false
    }

    /// The position of the first turn with the identifier.
    pub fn position_of(&self, turn_id: &str) -> (r: Option<usize>)
        ensures
            match r {
                Some(p) => first_turn(self@, turn_id@, p as int),
                None => !has_turn(self@, turn_id@),
            },
    {
        let mut i: usize = 0;
        while i < self.entries.len()
            invariant
                i <= self.entries@.len(),
                forall|j: int| 0 <= j < i ==> (#[trigger] self@[j]).turn_id != turn_id@,
            decreases self.entries@.len() - i,
        {
            if same_text(self.entries[i].turn_id.as_str(), turn_id) {
                assert(self@[i as int].turn_id == turn_id@);
                return Some(i);
            }
            assert(self@[i as int].turn_id != turn_id@);
            i += 1;
        }
        None
    }

    /// The length of the active timeline.
    pub fn active(&self) -> (r: u64)
        ensures
            r == active_len(self@),
    {
        let ghost all = self@;
        let mut count: u64 = 0;
        let mut i: usize = 0;
        proof {
            assert(all.take(0) =~= Seq::empty());
        }
        while i < self.entries.len()
            invariant
                i <= self.entries@.len(),
                all == self@,
                all.len() == self.entries@.len(),
                count == active_len(all.take(i as int)),
                count <= i,
            decreases self.entries@.len() - i,
        {
            proof {
                assert(all.take(i + 1).drop_last() =~= all.take(i as int));
                assert(all.take(i + 1).last() == self.entries@[i as int]@);
            }
            if !self.entries[i].state.is_discarded() {
                count += 1;
            }
            i += 1;
        }
        proof {
            assert(all.take(all.len() as int) =~= all);
        }
        count
    }

    /// Whether every turn behind `p` is discarded.
    pub fn only_discarded_behind(&self, p: usize) -> (r: bool)
        requires
            p < self@.len(),
        ensures
            r == tail_discarded(self@, p as int),
    {
        let count: usize = self.entries.len();
        let mut i: usize = p + 1;
        while i < count
            invariant
                count == self.entries@.len(),
                p < i <= count,
                forall|j: int| p < j < i ==> (#[trigger] self@[j]).state is Discarded,
            decreases count - i,
        {
            if !self.entries[i].state.is_discarded() {
                assert(!(self@[i as int].state is Discarded));
                return false;
            }
            assert(self@[i as int].state is Discarded);
            i += 1;
        }
        true
    }

    /// Puts the turn at `p` into a state.
    pub fn set_state(&mut self, p: usize, state: LedgerTurnState)
        requires
            p < old(self)@.len(),
        ensures
            final(self)@ == old(self)@.update(
                p as int,
                TurnView { state: state@, ..old(self)@[p as int] },
            ),
    {
        let ghost before = self@;
        let entry = SessionLedgerEntry {
            turn_id: self.entries[p].turn_id.clone(),
            prompt_digest: self.entries[p].prompt_digest.clone(),
            runtime_prompt_index: self.entries[p].runtime_prompt_index,
            state,
        };
        self.entries.set(p, entry);
        proof {
            assert(self@ =~= before.update(p as int, TurnView { state: state@, ..before[p as int] }));
        }
    }

    /// Adds a turn at the end.
    pub fn add(&mut self, entry: SessionLedgerEntry)
        ensures
            final(self)@ == old(self)@.push(entry@),
    {
        let ghost before = self@;
        self.entries.push(entry);
        proof {
            assert(self@ =~= before.push(entry@));
        }
    }
}

/// What reserving a turn gives: the ledger with the turn pending and the turn's place on the
/// timeline, or why it is refused.
pub open spec fn reserve_outcome(
    turns: Seq<TurnView>,
    turn_id: Seq<char>,
    prompt_digest: Seq<char>,
) -> Result<(Seq<TurnView>, u64), Fault> {
    if has_pending(turns) {
        Err(Fault::Operation("session has an unreconciled native Turn"@))
    } else if has_turn(turns, turn_id) {
        Err(Fault::Operation("native Turn id was already used"@))
    } else {
        let index = active_len(turns) as u64;
        Ok(
            (
                turns.push(
                    TurnView {
                        turn_id,
                        prompt_digest,
                        runtime_prompt_index: index,
                        state: TurnStateView::Pending,
                    },
                ),
                index,
            ),
        )
    }
}

/// Reserves a turn: the ledger must have no pending turn and must not know the identifier.
pub fn reserve_turn(ledger: &SessionLedger, turn_id: &str, prompt_digest: &str) -> (r: Result<
    (SessionLedger, u64),
    Error,
>)
    ensures
        match reserve_outcome(ledger@, turn_id@, prompt_digest@) {
            Ok((after, index)) => r matches Ok((l, i)) && l@ == after && i == index,
            Err(e) => fault(r) == Some(e),
        },
{
    if ledger.any_pending() {
        return Err(operation("session has an unreconciled native Turn"));
    }
    if ledger.position_of(turn_id).is_some() {
        return Err(operation("native Turn id was already used"));
    }
    let index: u64 = ledger.active();
    let mut after = ledger.duplicate();
    after.add(
        SessionLedgerEntry {
            turn_id: turn_id.to_owned(),
            prompt_digest: prompt_digest.to_owned(),
            runtime_prompt_index: index,
            state: LedgerTurnState::Pending,
        },
    );
    Ok((after, index))
}

/// Completes the last turn of a ledger.
pub fn settle_turn(ledger: &mut SessionLedger, outcome: TurnOutcome, settlement_id: &str)
    requires
        old(ledger)@.len() > 0,
    ensures
        final(ledger)@ == old(ledger)@.update(
            old(ledger)@.len() - 1,
            TurnView {
                state: TurnStateView::Completed { outcome, settlement_id: settlement_id@ },
                ..old(ledger)@.last()
            },
        ),
{
    let last: usize = ledger.entries.len() - 1;
    ledger.set_state(
        last,
        LedgerTurnState::Completed { outcome, settlement_id: settlement_id.to_owned() },
    );
}

/// What discarding a turn gives. A known turn must match, and only discarded turns may stand
/// behind it; an unknown one must follow the active timeline.
pub open spec fn discard_outcome(
    turns: Seq<TurnView>,
    resident: bool,
    active: bool,
    turn_id: Seq<char>,
    prompt_digest: Seq<char>,
    runtime_prompt_index: u64,
) -> Result<Seq<TurnView>, Fault> {
    if !resident {
        Err(Fault::Operation("session is not resident"@))
    } else if active {
        Err(Fault::Operation("cannot discard a Turn while the session is active"@))
    } else if has_turn(turns, turn_id) {
        let p = choose|p: int| first_turn(turns, turn_id, p);
        if turns[p].prompt_digest != prompt_digest || turns[p].runtime_prompt_index
            != runtime_prompt_index {
            Err(Fault::Operation("discarded Turn identity does not match the native ledger"@))
        } else if !tail_discarded(turns, p) {
            Err(Fault::Operation("native Turn history can only be discarded from the end"@))
        } else {
            Ok(turns.update(p, TurnView { state: TurnStateView::Discarded, ..turns[p] }))
        }
    } else if runtime_prompt_index != active_len(turns) {
        Err(Fault::Operation("discarded Turn index does not follow the native ledger"@))
    } else {
        Ok(
            turns.push(
                TurnView {
                    turn_id,
                    prompt_digest,
                    runtime_prompt_index,
                    state: TurnStateView::Discarded,
                },
            ),
        )
    }
}

/// Discards a turn; `resident` tells whether the session is loaded and `active` whether it has a
/// turn running.
pub fn mark_turn_discarded(
    ledger: &SessionLedger,
    resident: bool,
    active: bool,
    turn_id: &str,
    prompt_digest: &str,
    runtime_prompt_index: u64,
) -> (r: Result<SessionLedger, Error>)
    ensures
        match discard_outcome(ledger@, resident, active, turn_id@, prompt_digest@,
            runtime_prompt_index) {
            Ok(after) => r matches Ok(l) && l@ == after,
            Err(e) => fault(r) == Some(e),
        },
{
    require_resident(resident)?;
    if active {
        return Err(operation("cannot discard a Turn while the session is active"));
    }
    let mut after = ledger.duplicate();
    match ledger.position_of(turn_id) {
        Some(p) => {
            let entry = &ledger.entries[p];
            proof {
                assert(has_turn(ledger@, turn_id@)) by {
                    assert(ledger@[p as int].turn_id == turn_id@);
                }
                let q = choose|q: int| first_turn(ledger@, turn_id@, q);
                assert(first_turn(ledger@, turn_id@, q));
                assert(q == p) by {
                    assert(ledger@[q].turn_id == turn_id@);
                }
            }
            if !same_text(entry.prompt_digest.as_str(), prompt_digest)
                || entry.runtime_prompt_index != runtime_prompt_index {
                return Err(operation("discarded Turn identity does not match the native ledger"));
            }
            if !ledger.only_discarded_behind(p) {
                return Err(operation("native Turn history can only be discarded from the end"));
            }
            after.set_state(p, LedgerTurnState::Discarded);
            Ok(after)
        },
        None => {
            if runtime_prompt_index != ledger.active() {
                return Err(operation("discarded Turn index does not follow the native ledger"));
            }
            after.add(
                SessionLedgerEntry {
                    turn_id: turn_id.to_owned(),
                    prompt_digest: prompt_digest.to_owned(),
                    runtime_prompt_index,
                    state: LedgerTurnState::Discarded,
                },
            );
            Ok(after)
        },
    }
}

/// The domain of settlement identities.
pub const SETTLEMENT_DOMAIN: &'static str = "origin-grok-runtime.settlement.v1\0";

/// The fields that a settlement identity is taken over.
pub open spec fn settlement_fields(
    session_id: Seq<char>,
    turn_id: Seq<char>,
    prompt_digest: Seq<char>,
    runtime_prompt_index: u64,
    outcome: TurnOutcome,
) -> Seq<Seq<u8>> {
    seq![
        encode_utf8(session_id),
        encode_utf8(turn_id),
        encode_utf8(prompt_digest),
        be_bytes(runtime_prompt_index),
        encode_utf8(outcome.name()),
    ]
}

/// The identity of a settled turn: the digest of its fields, each behind its length.
pub fn ledger_settlement_id(
    session_id: &str,
    turn_id: &str,
    prompt_digest: &str,
    runtime_prompt_index: u64,
    outcome: TurnOutcome,
) -> (r: String)
    ensures
        r@ == fields_digest(
            encode_utf8(SETTLEMENT_DOMAIN@),
            settlement_fields(session_id@, turn_id@, prompt_digest@, runtime_prompt_index, outcome),
        ),
{
    let mut fields: Vec<Vec<u8>> = Vec::new();
    fields.push(bytes_of(session_id));
    fields.push(bytes_of(turn_id));
    fields.push(bytes_of(prompt_digest));
    fields.push(be_bytes_of(runtime_prompt_index));
    fields.push(bytes_of(outcome.as_str()));
    proof {
        assert(field_views(fields@) =~= settlement_fields(
            session_id@,
            turn_id@,
            prompt_digest@,
            runtime_prompt_index,
            outcome,
        ));
    }
    digest_of_fields(SETTLEMENT_DOMAIN.as_bytes(), &fields)
}

/// Settlements of different turns are taken over different bytes: no two settlements with
/// different fields share what is digested.
pub proof fn law_settlements_tell_turns_apart(
    session_a: Seq<char>,
    turn_a: Seq<char>,
    digest_a: Seq<char>,
    index_a: u64,
    outcome_a: TurnOutcome,
    session_b: Seq<char>,
    turn_b: Seq<char>,
    digest_b: Seq<char>,
    index_b: u64,
    outcome_b: TurnOutcome,
)
    requires
        crate::digest::frameable(
            settlement_fields(session_a, turn_a, digest_a, index_a, outcome_a),
        ),
        crate::digest::frameable(
            settlement_fields(session_b, turn_b, digest_b, index_b, outcome_b),
        ),
        crate::digest::framed(settlement_fields(session_a, turn_a, digest_a, index_a, outcome_a))
            == crate::digest::framed(
            settlement_fields(session_b, turn_b, digest_b, index_b, outcome_b),
        ),
    ensures
        session_a == session_b,
        turn_a == turn_b,
        digest_a == digest_b,
        index_a == index_b,
        outcome_a == outcome_b,
{
    let a = settlement_fields(session_a, turn_a, digest_a, index_a, outcome_a);
    let b = settlement_fields(session_b, turn_b, digest_b, index_b, outcome_b);
    crate::digest::law_framing_is_injective(a, b);
    assert(a[0] == b[0] && a[1] == b[1] && a[2] == b[2] && a[3] == b[3] && a[4] == b[4]);
    crate::text::lemma_encoding_injective(session_a, session_b);
    crate::text::lemma_encoding_injective(turn_a, turn_b);
    crate::text::lemma_encoding_injective(digest_a, digest_b);
    crate::text::lemma_encoding_injective(outcome_a.name(), outcome_b.name());
    crate::digest::lemma_be_bytes_injective(index_a, index_b);
    reveal_strlit("End");
    reveal_strlit("Cancelled");
    reveal_strlit("MaxTokens");
    reveal_strlit("MaxTurnRequests");
    reveal_strlit("Refusal");
    assert("End"@.len() == 3 && "Cancelled"@.len() == 9 && "MaxTokens"@.len() == 9
        && "MaxTurnRequests"@.len() == 15 && "Refusal"@.len() == 7);
    assert("Cancelled"@[0] == 'C' && "MaxTokens"@[0] == 'M');
}

/// A ledger whose turns took their places one after the other: each turn that is not discarded
/// stands at the number of active turns before it.
pub open spec fn well_indexed(turns: Seq<TurnView>) -> bool {
    forall|i: int|
        0 <= i < turns.len() && !((#[trigger] turns[i]).state is Discarded)
            ==> turns[i].runtime_prompt_index == active_len(turns.take(i))
}

/// Reserving a turn keeps the places of a ledger in order, and adds one to the active timeline.
pub proof fn law_reserving_keeps_places(
    turns: Seq<TurnView>,
    turn_id: Seq<char>,
    prompt_digest: Seq<char>,
)
    requires
        well_indexed(turns),
        turns.len() <= u64::MAX,
    ensures
        reserve_outcome(turns, turn_id, prompt_digest) matches Ok((after, index)) ==> {
            &&& well_indexed(after)
            &&& active_len(after) == active_len(turns) + 1
            &&& index == active_len(turns)
            &&& has_pending(after)
            &&& has_turn(after, turn_id)
        },
{
    lemma_active_len(turns);
    match reserve_outcome(turns, turn_id, prompt_digest) {
        Ok((after, index)) => {
            assert(after.drop_last() =~= turns);
            assert(after[turns.len() as int].state is Pending);
            assert(after[turns.len() as int].turn_id == turn_id);
            assert forall|i: int|
                0 <= i < after.len() && !((#[trigger] after[i]).state
                    is Discarded) implies after[i].runtime_prompt_index == active_len(
                after.take(i),
            ) by {
                assert(after.take(i) =~= turns.take(i));
                if i < turns.len() {
                    assert(after[i] == turns[i]);
                } else {
                    assert(turns.take(i) =~= turns);
                }
            }
        },
        Err(_) => {},
    }
}

/// Once a turn is pending, no other can be reserved until it is settled or discarded.
pub proof fn law_one_turn_at_a_time(
    turns: Seq<TurnView>,
    turn_id: Seq<char>,
    prompt_digest: Seq<char>,
    other_id: Seq<char>,
    other_digest: Seq<char>,
)
    ensures
        reserve_outcome(turns, turn_id, prompt_digest) matches Ok((after, _)) ==> reserve_outcome(
            after,
            other_id,
            other_digest,
        ) is Err,
{
    match reserve_outcome(turns, turn_id, prompt_digest) {
        Ok((after, _)) => {
            assert(after[turns.len() as int].state is Pending);
        },
        Err(_) => {},
    }
}

} // verus!
