//! Running one turn of a conversation, as a sequence of decisions.
//!
//! A turn is durable as pending before the engine hears of it, and durable as completed before
//! its receipt is given out.

use crate::digest::{fields_digest, text_views};
use crate::session::journal::{announced, contiguous, EventView};
use crate::session::ledger::{
    ledger_settlement_id, reserve_outcome, reserve_turn, settle_turn, settlement_fields,
    SessionLedger, TurnStateView, TurnView, SETTLEMENT_DOMAIN,
};
use crate::session::notice::UpdateView;
use crate::session::{fault, operation, require_resident, Error, Fault, PromptReceipt, TurnOutcome};
use crate::text::option_view;
use crate::text_map::{lemma_listing_exists, lists_in_order, sorted_keys, TextMap};
use vstd::prelude::*;
use vstd::utf8::encode_utf8;

verus! {

/// Why the engine stopped.
#[derive(Clone, Copy, Debug, PartialEq, Eq, Structural)]
pub enum StopReason {
    EndTurn,
    Cancelled,
    MaxTokens,
    MaxTurnRequests,
    Refusal,
    /// A reason that this runtime does not know.
    Other,
}

/// The outcome of a turn that stopped for a reason, when the reason is known.
pub open spec fn outcome_of(reason: StopReason) -> Option<TurnOutcome> {
    match reason {
        StopReason::EndTurn => Some(TurnOutcome::End),
        StopReason::Cancelled => Some(TurnOutcome::Cancelled),
        StopReason::MaxTokens => Some(TurnOutcome::MaxTokens),
        StopReason::MaxTurnRequests => Some(TurnOutcome::MaxTurnRequests),
        StopReason::Refusal => Some(TurnOutcome::Refusal),
        StopReason::Other => None,
    }
}

/// The outcome of a turn that stopped for a reason.
pub fn turn_outcome(reason: StopReason) -> (r: Result<TurnOutcome, Error>)
    ensures
        match outcome_of(reason) {
            Some(outcome) => r is Ok && r->Ok_0 == outcome,
            None => fault(r) == Some(Fault::Operation("unrecognized Grok stop reason"@)),
        },
{
    match reason {
        StopReason::EndTurn => Ok(TurnOutcome::End),
        StopReason::Cancelled => Ok(TurnOutcome::Cancelled),
        StopReason::MaxTokens => Ok(TurnOutcome::MaxTokens),
        StopReason::MaxTurnRequests => Ok(TurnOutcome::MaxTurnRequests),
        StopReason::Refusal => Ok(TurnOutcome::Refusal),
        StopReason::Other => Err(operation("unrecognized Grok stop reason")),
    }
}

/// The turns that are running, one at most for each session.
pub struct ActiveTurns {
    turns: TextMap<String>,
}

impl View for ActiveTurns {
    type V = Map<Seq<char>, Seq<char>>;

    closed spec fn view(&self) -> Map<Seq<char>, Seq<char>> {
        self.turns@.map_values(|turn: String| turn@)
    }
}

impl ActiveTurns {
    pub fn new() -> (r: ActiveTurns)
        ensures
            r@ == Map::<Seq<char>, Seq<char>>::empty(),
    {
        let r = ActiveTurns { turns: TextMap::new() };
        proof {
            assert(r@ =~= Map::<Seq<char>, Seq<char>>::empty());
        }
        r
    }

    /// The sessions that have a turn running, in order.
    pub fn sessions(&self) -> (r: Vec<String>)
        ensures
            text_views(r@) == sorted_keys(self@.dom()),
            lists_in_order(text_views(r@), self@.dom()),
    {
        let n: usize = self.turns.len();
        let ghost keys = self.turns.keys();
        proof {
            assert(self@.dom() =~= self.turns@.dom());
        }
        let mut out: Vec<String> = Vec::new();
        let mut i: usize = 0;
        assert(text_views(out@) =~= keys.take(0));
        while i < n
            invariant
                i <= n,
                n == keys.len(),
                keys == self.turns.keys(),
                text_views(out@) == keys.take(i as int),
            decreases n - i,
        {
            let ghost before = text_views(out@);
            let key = self.turns.key_at(i);
            out.push(key.to_owned());
            proof {
                assert(text_views(out@) =~= before.push(key@));
                assert(keys.take(i + 1) =~= keys.take(i as int).push(keys[i as int]));
            }
            i += 1;
        }
        proof {
            assert(keys.take(keys.len() as int) =~= keys);
            self.turns.lemma_finite();
            lemma_listing_exists(self@.dom());
        }
        out
    }

    /// Whether a session has a turn running.
    pub fn is_active(&self, session: &str) -> (r: bool)
        ensures
            r == self@.contains_key(session@),
    {
        self.turns.contains_key(session)
    }

    /// The turn that a session has running.
    pub fn turn_of(&self, session: &str) -> (r: Option<String>)
        ensures
            option_view(r) == if self@.contains_key(session@) {
                Some(self@[session@])
            } else {
                None
            },
    {
        match self.turns.get(session) {
            Some(turn) => Some(turn.clone()),
            None => None,
        }
    }

    /// Takes the session for a turn, unless it has one running.
    pub fn reserve(&mut self, session: &str, turn_id: &str) -> (r: Result<(), Error>)
        ensures
            if old(self)@.contains_key(session@) {
                &&& fault(r) == Some(Fault::Operation("session already has an active prompt"@))
                &&& final(self)@ == old(self)@
            } else {
                &&& r is Ok
                &&& final(self)@ == old(self)@.insert(session@, turn_id@)
            },
    {
        if self.turns.contains_key(session) {
            return Err(operation("session already has an active prompt"));
        }
        let ghost before = self@;
        self.turns.insert(session, turn_id.to_owned());
        proof {
            assert(self@ =~= before.insert(session@, turn_id@));
        }
        Ok(())
    }

    /// Gives the session free.
    pub fn release(&mut self, session: &str)
        ensures
            final(self)@ == old(self)@.remove(session@),
    {
        let ghost before = self@;
        self.turns.remove(session);
        proof {
            assert(self@ =~= before.remove(session@));
        }
    }

    /// What a cancellation leaves behind. When the engine refused it, or the prompt ignored it
    /// past the deadline, the turn is stopped by force and the session given free.
    pub fn settle_cancel(&mut self, session: &str, refused: Option<Error>, drained: bool) -> (r:
        Result<(), Error>)
        ensures
            ({
                let force = refused is Some || (old(self)@.contains_key(session@) && !drained);
                &&& fault(r) == match refused {
                    Some(e) => Some(e@),
                    None => if old(self)@.contains_key(session@) && !drained {
                        Some(
                            Fault::Operation(
                                "native Grok prompt ignored cancellation and was force-stopped"@,
                            ),
                        )
                    } else {
                        None
                    },
                }
                &&& final(self)@ == if force {
                    old(self)@.remove(session@)
                } else {
                    old(self)@
                }
            }),
    {
        if let Some(error) = refused {
            self.release(session);
            return Err(error);
        }
        if self.is_active(session) && !drained {
            self.release(session);
            return Err(operation("native Grok prompt ignored cancellation and was force-stopped"));
        }
        Ok(())
    }
}

/// A turn to be run: where, under which identifier, and the digest of its prompt.
#[derive(Debug, PartialEq, Eq)]
pub struct PromptRequest {
    pub session_id: String,
    pub turn_id: String,
    pub prompt_digest: String,
}

/// What a [`PromptRequest`] says.
pub struct PromptRequestView {
    pub session_id: Seq<char>,
    pub turn_id: Seq<char>,
    pub prompt_digest: Seq<char>,
}

impl View for PromptRequest {
    type V = PromptRequestView;

    open spec fn view(&self) -> PromptRequestView {
        PromptRequestView {
            session_id: self.session_id@,
            turn_id: self.turn_id@,
            prompt_digest: self.prompt_digest@,
        }
    }
}

/// Where a turn stands.
#[derive(Debug, PartialEq, Eq)]
pub enum PromptStage {
    Asked,
    /// The pending turn is being saved.
    Reserving { ledger: SessionLedger, index: u64 },
    /// The engine has the prompt.
    Running { ledger: SessionLedger, index: u64 },
    /// The engine stopped; its session is being made durable.
    Syncing { ledger: SessionLedger, index: u64, outcome: TurnOutcome },
    /// The completed turn is being saved.
    Settling { index: u64, outcome: TurnOutcome, settlement_id: String },
    /// The end of the turn is being announced.
    Announcing { index: u64, outcome: TurnOutcome, settlement_id: String },
    Over,
}

/// What a [`PromptStage`] says.
#[allow(inconsistent_fields)]
pub enum PromptStageView {
    Asked,
    Reserving { turns: Seq<TurnView>, index: u64 },
    Running { turns: Seq<TurnView>, index: u64 },
    Syncing { turns: Seq<TurnView>, index: u64, outcome: TurnOutcome },
    Settling { index: u64, outcome: TurnOutcome, settlement_id: Seq<char> },
    Announcing { index: u64, outcome: TurnOutcome, settlement_id: Seq<char> },
    Over,
}

impl View for PromptStage {
    type V = PromptStageView;

    open spec fn view(&self) -> PromptStageView {
        match self {
            PromptStage::Asked => PromptStageView::Asked,
            PromptStage::Reserving { ledger, index } => PromptStageView::Reserving {
                turns: ledger@,
                index: *index,
            },
            PromptStage::Running { ledger, index } => PromptStageView::Running {
                turns: ledger@,
                index: *index,
            },
            PromptStage::Syncing { ledger, index, outcome } => PromptStageView::Syncing {
                turns: ledger@,
                index: *index,
                outcome: *outcome,
            },
            PromptStage::Settling { index, outcome, settlement_id } => PromptStageView::Settling {
                index: *index,
                outcome: *outcome,
                settlement_id: settlement_id@,
            },
            PromptStage::Announcing { index, outcome, settlement_id } => {
                PromptStageView::Announcing {
                    index: *index,
                    outcome: *outcome,
                    settlement_id: settlement_id@,
                }
            },
            PromptStage::Over => PromptStageView::Over,
        }
    }
}

/// What came back from outside.
#[derive(Debug, PartialEq, Eq)]
pub enum PromptEvent {
    Ledger { resident: bool, ledger: SessionLedger },
    LedgerSaved,
    Stopped(StopReason),
    Synced,
    /// The end was announced; the number of the session's last event, when it has a journal.
    Announced { final_sequence: Option<u64> },
}

/// What a [`PromptEvent`] says.
pub enum PromptEventView {
    Ledger { resident: bool, turns: Seq<TurnView> },
    LedgerSaved,
    Stopped(StopReason),
    Synced,
    Announced { final_sequence: Option<u64> },
}

impl View for PromptEvent {
    type V = PromptEventView;

    open spec fn view(&self) -> PromptEventView {
        match self {
            PromptEvent::Ledger { resident, ledger } => PromptEventView::Ledger {
                resident: *resident,
                turns: ledger@,
            },
            PromptEvent::LedgerSaved => PromptEventView::LedgerSaved,
            PromptEvent::Stopped(reason) => PromptEventView::Stopped(*reason),
            PromptEvent::Synced => PromptEventView::Synced,
            PromptEvent::Announced { final_sequence } => PromptEventView::Announced {
                final_sequence: *final_sequence,
            },
        }
    }
}

/// What is to be done outside next.
#[derive(Debug, PartialEq, Eq)]
pub enum PromptAction {
    SaveLedger(SessionLedger),
    /// Hand the prompt to the engine under the turn's identifier.
    Send,
    Sync,
    /// Announce how the turn ended.
    Announce(TurnOutcome),
    Finish(PromptReceipt),
}

/// What a [`PromptReceipt`] says.
pub struct PromptReceiptView {
    pub outcome: TurnOutcome,
    pub final_sequence: u64,
    pub runtime_prompt_index: u64,
    pub settlement_id: Seq<char>,
}

impl View for PromptReceipt {
    type V = PromptReceiptView;

    open spec fn view(&self) -> PromptReceiptView {
        PromptReceiptView {
            outcome: self.outcome,
            final_sequence: self.final_sequence,
            runtime_prompt_index: self.runtime_prompt_index,
            settlement_id: self.settlement_id@,
        }
    }
}

/// What a [`PromptAction`] says.
pub enum PromptActionView {
    SaveLedger(Seq<TurnView>),
    Send,
    Sync,
    Announce(TurnOutcome),
    Finish(PromptReceiptView),
}

impl View for PromptAction {
    type V = PromptActionView;

    open spec fn view(&self) -> PromptActionView {
        match self {
            PromptAction::SaveLedger(ledger) => PromptActionView::SaveLedger(ledger@),
            PromptAction::Send => PromptActionView::Send,
            PromptAction::Sync => PromptActionView::Sync,
            PromptAction::Announce(outcome) => PromptActionView::Announce(*outcome),
            PromptAction::Finish(receipt) => PromptActionView::Finish(receipt@),
        }
    }
}

/// The identity of the settlement of a turn.
pub open spec fn settlement_of(
    request: PromptRequestView,
    index: u64,
    outcome: TurnOutcome,
) -> Seq<char> {
    fields_digest(
        encode_utf8(SETTLEMENT_DOMAIN@),
        settlement_fields(
            request.session_id,
            request.turn_id,
            request.prompt_digest,
            index,
            outcome,
        ),
    )
}

/// The ledger with its last turn completed.
pub open spec fn settled(
    turns: Seq<TurnView>,
    outcome: TurnOutcome,
    settlement_id: Seq<char>,
) -> Seq<TurnView> {
    turns.update(
        turns.len() - 1,
        TurnView {
            state: TurnStateView::Completed { outcome, settlement_id },
            ..turns.last()
        },
    )
}

/// The words for an answer to a question that was not asked.
pub const UNEXPECTED_ANSWER: &'static str = "prompt received an answer out of order";

/// What a stage makes of an answer: the next stage and what to do, or why the turn stops.
pub open spec fn prompt_step(
    request: PromptRequestView,
    stage: PromptStageView,
    event: PromptEventView,
) -> Result<(PromptStageView, PromptActionView), Fault> {
    match (stage, event) {
        (PromptStageView::Asked, PromptEventView::Ledger { resident, turns }) => if !resident {
            Err(Fault::Operation("session is not resident"@))
        } else {
            match reserve_outcome(turns, request.turn_id, request.prompt_digest) {
                Err(e) => Err(e),
                Ok((after, index)) => Ok(
                    (
                        PromptStageView::Reserving { turns: after, index },
                        PromptActionView::SaveLedger(after),
                    ),
                ),
            }
        },
        (PromptStageView::Reserving { turns, index }, PromptEventView::LedgerSaved) => Ok(
            (PromptStageView::Running { turns, index }, PromptActionView::Send),
        ),
        (PromptStageView::Running { turns, index }, PromptEventView::Stopped(reason)) => {
            match outcome_of(reason) {
                None => Err(Fault::Operation("unrecognized Grok stop reason"@)),
                Some(outcome) => Ok(
                    (PromptStageView::Syncing { turns, index, outcome }, PromptActionView::Sync),
                ),
            }
        },
        (PromptStageView::Syncing { turns, index, outcome }, PromptEventView::Synced) => {
            let settlement_id = settlement_of(request, index, outcome);
            Ok(
                (
                    PromptStageView::Settling { index, outcome, settlement_id },
                    PromptActionView::SaveLedger(settled(turns, outcome, settlement_id)),
                ),
            )
        },
        (
            PromptStageView::Settling { index, outcome, settlement_id },
            PromptEventView::LedgerSaved,
        ) => Ok(
            (
                PromptStageView::Announcing { index, outcome, settlement_id },
                PromptActionView::Announce(outcome),
            ),
        ),
        (
            PromptStageView::Announcing { index, outcome, settlement_id },
            PromptEventView::Announced { final_sequence },
        ) => match final_sequence {
            None => Err(Fault::Operation("session event sequence is unavailable"@)),
            Some(sequence) => Ok(
                (
                    PromptStageView::Over,
                    PromptActionView::Finish(
                        PromptReceiptView {
                            outcome,
                            final_sequence: sequence,
                            runtime_prompt_index: index,
                            settlement_id,
                        },
                    ),
                ),
            ),
        },
        _ => Err(Fault::Operation(UNEXPECTED_ANSWER@)),
    }
}

/// A turn under way.
pub struct PromptMachine {
    request: PromptRequest,
    stage: PromptStage,
}

/// Whether a ledger that is still to be settled has its pending turn.
pub open spec fn stage_sound(stage: PromptStageView) -> bool {
    match stage {
        PromptStageView::Reserving { turns, .. } => turns.len() > 0,
        PromptStageView::Running { turns, .. } => turns.len() > 0,
        PromptStageView::Syncing { turns, .. } => turns.len() > 0,
        _ => true,
    }
}

impl PromptMachine {
    pub closed spec fn request(&self) -> PromptRequestView {
        self.request@
    }

    pub closed spec fn stage(&self) -> PromptStageView {
        self.stage@
    }

    #[verifier::type_invariant]
    closed spec fn sound(&self) -> bool {
        stage_sound(self.stage@)
    }

    /// Begins a turn: the first thing wanted is the session's ledger.
    pub fn new(request: PromptRequest) -> (r: PromptMachine)
        ensures
            r.request() == request@,
            r.stage() == PromptStageView::Asked,
    {
        PromptMachine { request, stage: PromptStage::Asked }
    }

    /// Takes an answer and says what to do next. A machine that stopped answers nothing more.
    pub fn step(self, event: PromptEvent) -> (r: Result<(PromptMachine, PromptAction), Error>)
        ensures
            match prompt_step(self.request(), self.stage(), event@) {
                Ok((stage, action)) => {
                    &&& r is Ok
                    &&& r->Ok_0.0.request() == self.request()
                    &&& r->Ok_0.0.stage() == stage
                    &&& r->Ok_0.1@ == action
                },
                Err(e) => fault(r) == Some(e),
            },
    {
        proof {
            use_type_invariant(&self);
        }
        let PromptMachine { request, stage } = self;
        let (stage, action) = match (stage, event) {
            (PromptStage::Asked, PromptEvent::Ledger { resident, ledger }) => {
                require_resident(resident)?;
                let (after, index) = reserve_turn(
                    &ledger,
                    request.turn_id.as_str(),
                    request.prompt_digest.as_str(),
                )?;
                let saved = after.duplicate();
                (PromptStage::Reserving { ledger: after, index }, PromptAction::SaveLedger(saved))
            },
            (PromptStage::Reserving { ledger, index }, PromptEvent::LedgerSaved) => (
                PromptStage::Running { ledger, index },
                PromptAction::Send,
            ),
            (PromptStage::Running { ledger, index }, PromptEvent::Stopped(reason)) => {
                let outcome = turn_outcome(reason)?;
                (PromptStage::Syncing { ledger, index, outcome }, PromptAction::Sync)
            },
            (PromptStage::Syncing { ledger, index, outcome }, PromptEvent::Synced) => {
                let settlement_id = ledger_settlement_id(
                    request.session_id.as_str(),
                    request.turn_id.as_str(),
                    request.prompt_digest.as_str(),
                    index,
                    outcome,
                );
                let mut after = ledger;
                settle_turn(&mut after, outcome, settlement_id.as_str());
                (
                    PromptStage::Settling { index, outcome, settlement_id },
                    PromptAction::SaveLedger(after),
                )
            },
            (
                PromptStage::Settling { index, outcome, settlement_id },
                PromptEvent::LedgerSaved,
            ) => (
                PromptStage::Announcing { index, outcome, settlement_id },
                PromptAction::Announce(outcome),
            ),
            (
                PromptStage::Announcing { index, outcome, settlement_id },
                PromptEvent::Announced { final_sequence },
            ) => match final_sequence {
                None => {
                    return Err(operation("session event sequence is unavailable"));
                },
                Some(sequence) => (
                    PromptStage::Over,
                    PromptAction::Finish(
                        PromptReceipt {
                            outcome,
                            final_sequence: sequence,
                            runtime_prompt_index: index,
                            settlement_id,
                        },
                    ),
                ),
            },
            _ => {
                return Err(operation(UNEXPECTED_ANSWER));
            },
        };
        Ok((PromptMachine { request, stage }, action))
    }
}

/// The outcome tells why the engine stopped: each known reason has an outcome of its own, which
/// no other reason has, and only a reason that is not known has none.
pub proof fn law_outcomes_tell_reasons_apart(reason: StopReason, other: StopReason)
    ensures
        outcome_of(reason) == Some(TurnOutcome::End) <==> reason is EndTurn,
        outcome_of(reason) == Some(TurnOutcome::Cancelled) <==> reason is Cancelled,
        outcome_of(reason) == Some(TurnOutcome::MaxTokens) <==> reason is MaxTokens,
        outcome_of(reason) == Some(TurnOutcome::MaxTurnRequests) <==> reason is MaxTurnRequests,
        outcome_of(reason) == Some(TurnOutcome::Refusal) <==> reason is Refusal,
        outcome_of(reason) is None <==> reason is Other,
        outcome_of(reason) is Some && outcome_of(reason) == outcome_of(other) ==> reason == other,
{
}

/// A turn that runs to its end leaves the ledger with exactly one turn more: completed, under the
/// request's identity, at the place where the active timeline ended, with the settlement that its
/// receipt names. The ledger, what is announced and the receipt name one outcome, and it is the
/// one of the reason for which the engine stopped.
pub proof fn law_prompts_settle_their_turn(
    request: PromptRequestView,
    turns: Seq<TurnView>,
    reason: StopReason,
    final_sequence: u64,
)
    requires
        reserve_outcome(turns, request.turn_id, request.prompt_digest) is Ok,
        !(reason is Other),
    ensures
        ({
            let outcome = outcome_of(reason)->Some_0;
            let (after, index) = reserve_outcome(
                turns,
                request.turn_id,
                request.prompt_digest,
            )->Ok_0;
            let settlement_id = settlement_of(request, index, outcome);
            let s0 = prompt_step(
                request,
                PromptStageView::Asked,
                (PromptEventView::Ledger { resident: true, turns }),
            )->Ok_0;
            let s1 = prompt_step(request, s0.0, PromptEventView::LedgerSaved)->Ok_0;
            let s2 = prompt_step(request, s1.0, PromptEventView::Stopped(reason))->Ok_0;
            let s3 = prompt_step(request, s2.0, PromptEventView::Synced)->Ok_0;
            let s4 = prompt_step(request, s3.0, PromptEventView::LedgerSaved)->Ok_0;
            let s5 = prompt_step(
                request,
                s4.0,
                (PromptEventView::Announced { final_sequence: Some(final_sequence) }),
            );
            let receipt = s5->Ok_0.1->Finish_0;
            let kept = s3.1->SaveLedger_0.last();
            &&& receipt.outcome is End <==> reason is EndTurn
            &&& receipt.outcome is Cancelled <==> reason is Cancelled
            &&& receipt.outcome is MaxTokens <==> reason is MaxTokens
            &&& receipt.outcome is MaxTurnRequests <==> reason is MaxTurnRequests
            &&& receipt.outcome is Refusal <==> reason is Refusal
            &&& kept.state == (TurnStateView::Completed {
                outcome: receipt.outcome,
                settlement_id: receipt.settlement_id,
            })
            &&& s2.1 == PromptActionView::Sync
            &&& s4.1 == PromptActionView::Announce(receipt.outcome)
            &&& s0.1 == PromptActionView::SaveLedger(after)
            &&& s1.1 == PromptActionView::Send
            &&& s3.1 == PromptActionView::SaveLedger(
                turns.push(
                    TurnView {
                        turn_id: request.turn_id,
                        prompt_digest: request.prompt_digest,
                        runtime_prompt_index: index,
                        state: TurnStateView::Completed { outcome, settlement_id },
                    },
                ),
            )
            &&& s5 is Ok
            &&& s5->Ok_0.1 == PromptActionView::Finish(
                PromptReceiptView {
                    outcome,
                    final_sequence,
                    runtime_prompt_index: index,
                    settlement_id,
                },
            )
        }),
{
    let outcome = outcome_of(reason)->Some_0;
    let (after, index) = reserve_outcome(turns, request.turn_id, request.prompt_digest)->Ok_0;
    let settlement_id = settlement_of(request, index, outcome);
    assert(settled(after, outcome, settlement_id) =~= turns.push(
        TurnView {
            turn_id: request.turn_id,
            prompt_digest: request.prompt_digest,
            runtime_prompt_index: index,
            state: TurnStateView::Completed { outcome, settlement_id },
        },
    ));
}

/// When a turn has come to its end, the journal ends with the event that says so: under the
/// request's turn, with the outcome of its receipt, at the number that the receipt names.
pub proof fn law_journals_end_with_the_finished_turn(
    request: PromptRequestView,
    index: u64,
    outcome: TurnOutcome,
    settlement_id: Seq<char>,
    events: Seq<EventView>,
    session: Seq<char>,
    end: u64,
)
    requires
        contiguous(events, end),
        end < u64::MAX,
    ensures
        ({
            let after = announced(events, session, end, request.turn_id, outcome);
            let number = (end + 1) as u64;
            let step = prompt_step(
                request,
                PromptStageView::Announcing { index, outcome, settlement_id },
                PromptEventView::Announced { final_sequence: Some(number) },
            );
            &&& contiguous(after, number)
            &&& step is Ok
            &&& step->Ok_0.1 is Finish
            &&& after.last().sequence == step->Ok_0.1->Finish_0.final_sequence
            &&& after.last().turn_id == Some(request.turn_id)
            &&& after.last().update == UpdateView::TurnFinished(step->Ok_0.1->Finish_0.outcome)
        }),
{
}

/// A turn that stops for a reason that is not known settles nothing: nothing is saved, announced or
/// answered.
pub proof fn law_unknown_reasons_settle_nothing(
    request: PromptRequestView,
    turns: Seq<TurnView>,
    index: u64,
    reason: StopReason,
)
    ensures
        prompt_step(
            request,
            PromptStageView::Running { turns, index },
            PromptEventView::Stopped(reason),
        ) is Err <==> reason is Other,
{
}

} // verus!
