//! Durable evidence of sessions: versioned documents, and what binds a turn to its harness.

use crate::session::ledger::{
    first_turn, has_turn, LedgerTurnState, SessionLedger, TurnStateView, TurnView,
};
use crate::session::{fault, operation, require_resident, Error, Fault, TurnOutcome};
use crate::text::{option_view, same_option, same_text};
use vstd::prelude::*;

verus! {

/// The longest ledger document.
pub const MAX_LEDGER_BYTES: usize = 8388608;

/// What identifies one version of a document.
#[derive(Debug, PartialEq, Eq)]
pub struct EvidenceVersion {
    pub revision: u64,
    pub digest: String,
}

impl View for EvidenceVersion {
    type V = (u64, Seq<char>);

    open spec fn view(&self) -> (u64, Seq<char>) {
        (self.revision, self.digest@)
    }
}

/// What a store says of a commit.
#[derive(Debug, PartialEq, Eq)]
pub enum EvidenceCommit {
    Committed(EvidenceVersion),
    /// Another version was there.
    Conflict,
    /// Whether the commit took effect is not known.
    CommitUnknown,
}

/// Accepts or refuses a document that was loaded: it must keep within its bound, and its version
/// must be one of its bytes.
pub fn accept_evidence(length: usize, maximum: usize, version_is_valid: bool) -> (r: Result<
    (),
    Error,
>)
    ensures
        fault(r) == if length > maximum {
            Some(Fault::Operation("session evidence exceeds its bounded schema size"@))
        } else if !version_is_valid {
            Some(Fault::Operation("session evidence CAS digest or revision is invalid"@))
        } else {
            None
        },
{
    if length > maximum {
        return Err(operation("session evidence exceeds its bounded schema size"));
    }
    if !version_is_valid {
        return Err(operation("session evidence CAS digest or revision is invalid"));
    }
    Ok(())
}

/// What is wrong with what a store says of a commit, given the version that follows from the bytes.
pub open spec fn commit_fault(commit: EvidenceCommit, required: (u64, Seq<char>)) -> Option<Fault> {
    match commit {
        EvidenceCommit::Committed(version) => if version@ == required {
            None
        } else {
            Some(
                Fault::Operation("session evidence store returned an invalid successor identity"@),
            )
        },
        EvidenceCommit::Conflict => Some(
            Fault::Operation("session evidence CAS conflict; reconciliation is required"@),
        ),
        EvidenceCommit::CommitUnknown => Some(
            Fault::Operation(
                "session evidence commit acknowledgement is unknown; reconciliation is required"@,
            ),
        ),
    }
}

/// A commit is accepted exactly where it was committed as the version that follows from the bytes:
/// neither a conflict nor a commit of unknown effect is taken for one.
pub proof fn law_commits_are_of_the_version_required(
    commit: EvidenceCommit,
    required: (u64, Seq<char>),
)
    ensures
        commit_fault(commit, required) is None <==> (commit matches EvidenceCommit::Committed(
            version,
        ) && version.revision == required.0 && version.digest@ == required.1),
{
}

/// Accepts or refuses what a store says of a commit: the new version must be the one that follows
/// from the bytes.
pub fn settle_commit(commit: &EvidenceCommit, required: &EvidenceVersion) -> (r: Result<(), Error>)
    ensures
        fault(r) == commit_fault(*commit, required@),
{
    match commit {
        EvidenceCommit::Committed(version) => if version.revision == required.revision && same_text(
            version.digest.as_str(),
            required.digest.as_str(),
        ) {
            Ok(())
        } else {
            Err(operation("session evidence store returned an invalid successor identity"))
        },
        EvidenceCommit::Conflict => Err(
            operation("session evidence CAS conflict; reconciliation is required"),
        ),
        EvidenceCommit::CommitUnknown => Err(
            operation(
                "session evidence commit acknowledgement is unknown; reconciliation is required",
            ),
        ),
    }
}

/// Refuses a ledger document that is too long to be stored.
pub fn check_ledger_size(length: usize) -> (r: Result<(), Error>)
    ensures
        fault(r) == if length > MAX_LEDGER_BYTES {
            Some(Fault::Operation("native Turn ledger exceeds maximum size"@))
        } else {
            None
        },
{
    if length > MAX_LEDGER_BYTES {
        return Err(operation("native Turn ledger exceeds maximum size"));
    }
    Ok(())
}

/// The name under which the binding of a turn is stored.
pub open spec fn binding_name(session: Seq<char>, turn: Seq<char>) -> Seq<char> {
    session + "\0"@ + turn
}

/// The name under which the binding of a turn is stored.
pub fn binding_identity(session: &str, turn: &str) -> (r: String)
    ensures
        r@ == binding_name(session@, turn@),
{
    let mut out = session.to_owned();
    out.append("\0");
    out.append(turn);
    out
}

/// What a session is bound to while it is loaded.
#[derive(Debug, PartialEq, Eq)]
pub struct SessionBinding {
    pub harness_digest: Option<String>,
    pub model: String,
    pub reasoning: Option<String>,
}

/// What a host knows of a turn that it asks about.
#[derive(Debug, PartialEq, Eq)]
pub struct TurnBindingKey {
    pub turn_id: String,
    pub prompt_digest: String,
    pub runtime_prompt_index: u64,
    pub snapshot_digest: String,
    pub model: String,
    pub reasoning: Option<String>,
}

/// The durable receipt of a turn, with what it was bound to.
#[derive(Debug, PartialEq, Eq)]
pub struct TurnBindingReceipt {
    pub session_id: String,
    pub turn_id: String,
    pub prompt_digest: String,
    pub runtime_prompt_index: u64,
    pub snapshot_digest: String,
    pub model: String,
    pub reasoning: Option<String>,
    pub outcome: TurnOutcome,
    pub settlement_id: String,
    pub usage: String,
}

/// Whether a loaded session is bound to what a key names.
pub open spec fn binding_fits(binding: SessionBinding, key: TurnBindingKey) -> bool {
    &&& option_view(binding.harness_digest) == Some(key.snapshot_digest@)
    &&& binding.model@ == key.model@
    &&& option_view(binding.reasoning) == option_view(key.reasoning)
}

/// Whether a receipt is that of the turn that a key names.
pub open spec fn key_matches(key: TurnBindingKey, receipt: TurnBindingReceipt) -> bool {
    &&& key.turn_id@ == receipt.turn_id@
    &&& key.prompt_digest@ == receipt.prompt_digest@
    &&& key.runtime_prompt_index == receipt.runtime_prompt_index
    &&& key.snapshot_digest@ == receipt.snapshot_digest@
    &&& key.model@ == receipt.model@
    &&& option_view(key.reasoning) == option_view(receipt.reasoning)
}

impl TurnBindingKey {
    /// Whether a receipt is that of the turn that the key names.
    pub fn matches_receipt(&self, receipt: &TurnBindingReceipt) -> (r: bool)
        ensures
            r == key_matches(*self, *receipt),
    {
        same_text(self.turn_id.as_str(), receipt.turn_id.as_str()) && same_text(
            self.prompt_digest.as_str(),
            receipt.prompt_digest.as_str(),
        ) && self.runtime_prompt_index == receipt.runtime_prompt_index && same_text(
            self.snapshot_digest.as_str(),
            receipt.snapshot_digest.as_str(),
        ) && same_text(self.model.as_str(), receipt.model.as_str()) && same_option(
            &self.reasoning,
            &receipt.reasoning,
        )
    }
}

/// What the records of a turn come to.
pub enum BindingView {
    /// No receipt is stored.
    Absent,
    /// The receipt stands; the ledger, when the turn was still pending there, is completed by it.
    Complete { settled: Option<Seq<TurnView>> },
}

/// A decision on the records of a turn.
#[derive(Debug, PartialEq, Eq)]
pub enum BindingDecision {
    Absent,
    Complete { settled: Option<SessionLedger> },
}

impl View for BindingDecision {
    type V = BindingView;

    open spec fn view(&self) -> BindingView {
        match self {
            BindingDecision::Absent => BindingView::Absent,
            BindingDecision::Complete { settled } => BindingView::Complete {
                settled: match settled {
                    Some(ledger) => Some(ledger@),
                    None => None,
                },
            },
        }
    }
}

/// What the records of a turn come to, or how they contradict each other. `entry_usage` is the
/// usage that the ledger has for the turn.
pub open spec fn binding_outcome(
    session_id: Seq<char>,
    binding: SessionBinding,
    key: TurnBindingKey,
    turns: Seq<TurnView>,
    entry_usage: Option<Seq<char>>,
    receipt: Option<TurnBindingReceipt>,
) -> Result<BindingView, Fault> {
    let known = has_turn(turns, key.turn_id@);
    let p = choose|p: int| first_turn(turns, key.turn_id@, p);
    if !binding_fits(binding, key) {
        Err(
            Fault::BindingRecordConflict(
                "the resident Session snapshot or effective route differs from the recovery key"@,
            ),
        )
    } else if known && (turns[p].prompt_digest != key.prompt_digest@
        || turns[p].runtime_prompt_index != key.runtime_prompt_index) {
        Err(
            Fault::BindingRecordConflict(
                "the recovery key conflicts with the durable Turn ledger identity"@,
            ),
        )
    } else {
        match receipt {
            None => Ok(BindingView::Absent),
            Some(receipt) => if !known || receipt.session_id@ != session_id || !key_matches(
                key,
                receipt,
            ) {
                Err(
                    Fault::BindingRecordConflict(
                        "the durable record does not match the requested Turn binding identity"@,
                    ),
                )
            } else {
                match turns[p].state {
                    TurnStateView::Completed { outcome, settlement_id } => if outcome
                        != receipt.outcome || settlement_id != receipt.settlement_id@ || entry_usage
                        != Some(receipt.usage@) {
                        Err(
                            Fault::BindingRecordConflict(
                                "the durable record conflicts with the completed Turn ledger evidence"@,
                            ),
                        )
                    } else {
                        Ok(BindingView::Complete { settled: None })
                    },
                    TurnStateView::Pending => Ok(
                        BindingView::Complete {
                            settled: Some(
                                turns.update(
                                    p,
                                    TurnView {
                                        state: TurnStateView::Completed {
                                            outcome: receipt.outcome,
                                            settlement_id: receipt.settlement_id@,
                                        },
                                        ..turns[p]
                                    },
                                ),
                            ),
                        },
                    ),
                    TurnStateView::Discarded => Err(
                        Fault::BindingRecordConflict(
                            "the durable Turn binding belongs to discarded conversation history"@,
                        ),
                    ),
                }
            },
        }
    }
}

fn conflict(message: &str) -> (r: Error)
    ensures
        r@ == Fault::BindingRecordConflict(message@),
{
    Error::BindingRecordConflict(message.to_owned())
}

/// Decides what the records of a turn come to.
pub fn turn_binding_status(
    resident: bool,
    session_id: &str,
    binding: Option<&SessionBinding>,
    key: &TurnBindingKey,
    ledger: &SessionLedger,
    entry_usage: &Option<String>,
    receipt: Option<&TurnBindingReceipt>,
) -> (r: Result<BindingDecision, Error>)
    ensures
        if !resident {
            fault(r) == Some(Fault::Operation("session is not resident"@))
        } else if binding is None {
            fault(r) == Some(Fault::Operation("session binding is unavailable"@))
        } else {
            match binding_outcome(
                session_id@,
                *binding->Some_0,
                *key,
                ledger@,
                option_view(*entry_usage),
                match receipt {
                    Some(known) => Some(*known),
                    None => None,
                },
            ) {
                Ok(decision) => r is Ok && r->Ok_0@ == decision,
                Err(e) => fault(r) == Some(e),
            }
        },
{
    require_resident(resident)?;
    let binding = match binding {
        Some(binding) => binding,
        None => {
            return Err(operation("session binding is unavailable"));
        },
    };
    let bound_to_snapshot = match &binding.harness_digest {
        Some(digest) => same_text(digest.as_str(), key.snapshot_digest.as_str()),
        None => false,
    };
    if !bound_to_snapshot || !same_text(binding.model.as_str(), key.model.as_str()) || !same_option(
        &binding.reasoning,
        &key.reasoning,
    ) {
        return Err(
            conflict(
                "the resident Session snapshot or effective route differs from the recovery key",
            ),
        );
    }
    let position = ledger.position_of(key.turn_id.as_str());
    proof {
        if position is Some {
            let p = position->Some_0 as int;
            assert(ledger@[p].turn_id == key.turn_id@);
            let q = choose|q: int| first_turn(ledger@, key.turn_id@, q);
            assert(first_turn(ledger@, key.turn_id@, q));
            assert(ledger@[q].turn_id == key.turn_id@);
            assert(p == q);
            assert(ledger@[p] == ledger.entries@[p]@);
        }
    }
    if let Some(p) = position {
        let entry = &ledger.entries[p];
        if !same_text(entry.prompt_digest.as_str(), key.prompt_digest.as_str())
            || entry.runtime_prompt_index != key.runtime_prompt_index {
            return Err(conflict("the recovery key conflicts with the durable Turn ledger identity"));
        }
    }
    let receipt = match receipt {
        Some(receipt) => receipt,
        None => {
            return Ok(BindingDecision::Absent);
        },
    };
    let p: usize = match position {
        Some(p) if same_text(receipt.session_id.as_str(), session_id) && key.matches_receipt(
            receipt,
        ) => p,
        _ => {
            return Err(
                conflict("the durable record does not match the requested Turn binding identity"),
            );
        },
    };
    match &ledger.entries[p].state {
        LedgerTurnState::Completed { outcome, settlement_id } => {
            let same_usage = match entry_usage {
                Some(usage) => same_text(usage.as_str(), receipt.usage.as_str()),
                None => false,
            };
            if *outcome != receipt.outcome || !same_text(
                settlement_id.as_str(),
                receipt.settlement_id.as_str(),
            ) || !same_usage {
                return Err(
                    conflict("the durable record conflicts with the completed Turn ledger evidence"),
                );
            }
            Ok(BindingDecision::Complete { settled: None })
        },
        LedgerTurnState::Pending => {
            let mut after = ledger.duplicate();
            after.set_state(
                p,
                LedgerTurnState::Completed {
                    outcome: receipt.outcome,
                    settlement_id: receipt.settlement_id.clone(),
                },
            );
            Ok(BindingDecision::Complete { settled: Some(after) })
        },
        LedgerTurnState::Discarded => Err(
            conflict("the durable Turn binding belongs to discarded conversation history"),
        ),
    }
}

/// Once a pending turn was completed by its receipt, asking again finds the same receipt complete
/// and changes nothing.
pub proof fn law_recovered_turns_stay_recovered(
    session_id: Seq<char>,
    binding: SessionBinding,
    key: TurnBindingKey,
    turns: Seq<TurnView>,
    entry_usage: Option<Seq<char>>,
    receipt: TurnBindingReceipt,
)
    requires
        binding_outcome(session_id, binding, key, turns, entry_usage, Some(receipt)) is Ok,
        (binding_outcome(
            session_id,
            binding,
            key,
            turns,
            entry_usage,
            Some(receipt),
        )->Ok_0)->settled is Some,
    ensures
        binding_outcome(
            session_id,
            binding,
            key,
            ((binding_outcome(
                session_id,
                binding,
                key,
                turns,
                entry_usage,
                Some(receipt),
            )->Ok_0)->settled)->Some_0,
            Some(receipt.usage@),
            Some(receipt),
        ) == Ok::<BindingView, Fault>(BindingView::Complete { settled: None }),
{
    let after = ((binding_outcome(
        session_id,
        binding,
        key,
        turns,
        entry_usage,
        Some(receipt),
    )->Ok_0)->settled)->Some_0;
    let id = key.turn_id@;
    let i = choose|i: int| 0 <= i < turns.len() && (#[trigger] turns[i]).turn_id == id;
    lemma_first_exists(turns, id, i);
    let p = choose|p: int| first_turn(turns, id, p);
    assert(first_turn(turns, id, p));
    assert(first_turn(after, id, p)) by {
        assert forall|j: int| 0 <= j < p implies (#[trigger] after[j]).turn_id != id by {
            assert(after[j] == turns[j]);
        }
    }
    let q = choose|q: int| first_turn(after, id, q);
    assert(first_turn(after, id, q));
    assert(after[p].turn_id == id && after[q].turn_id == id);
    assert(p == q);
}

proof fn lemma_first_exists(turns: Seq<TurnView>, id: Seq<char>, i: int)
    requires
        0 <= i < turns.len(),
        turns[i].turn_id == id,
    ensures
        exists|p: int| first_turn(turns, id, p),
    decreases i,
{
    if exists|j: int| 0 <= j < i && (#[trigger] turns[j]).turn_id == id {
        let j = choose|j: int| 0 <= j < i && (#[trigger] turns[j]).turn_id == id;
        lemma_first_exists(turns, id, j);
    } else {
        assert(first_turn(turns, id, i));
    }
}

/// What is to be done with a receipt that is to be stored.
#[derive(Clone, Copy, Debug, PartialEq, Eq, Structural)]
pub enum RecordDecision {
    Store,
    AlreadyStored,
}

/// What becomes of a receipt that is to be stored and never changed, compared with what is stored,
/// when something is.
pub open spec fn record_decision(existing_is_same: Option<bool>) -> Result<RecordDecision, Fault> {
    match existing_is_same {
        None => Ok(RecordDecision::Store),
        Some(true) => Ok(RecordDecision::AlreadyStored),
        Some(false) => Err(
            Fault::BindingRecordConflict(
                "an immutable record already exists for this Session and Turn ID"@,
            ),
        ),
    }
}

/// A record is stored exactly where there is none, is found stored where it is the same, and is
/// refused where it is another: what is stored is never replaced.
pub proof fn law_records_are_never_replaced(existing_is_same: Option<bool>)
    ensures
        (record_decision(existing_is_same) matches Ok(RecordDecision::Store)) <==> existing_is_same
            is None,
        (record_decision(existing_is_same) matches Ok(RecordDecision::AlreadyStored))
            <==> existing_is_same == Some(true),
        record_decision(existing_is_same) is Err <==> existing_is_same == Some(false),
{
}

/// Decides on storing a receipt that is never changed: `existing_is_same` compares it with what
/// is stored, when something is.
pub fn decide_record(existing_is_same: Option<bool>) -> (r: Result<RecordDecision, Error>)
    ensures
        match record_decision(existing_is_same) {
            Ok(decision) => r is Ok && r->Ok_0 == decision,
            Err(e) => fault(r) == Some(e),
        },
{
    match existing_is_same {
        None => Ok(RecordDecision::Store),
        Some(same) => if same {
            Ok(RecordDecision::AlreadyStored)
        } else {
            Err(conflict("an immutable record already exists for this Session and Turn ID"))
        },
    }
}

} // verus!
