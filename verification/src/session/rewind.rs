//! Rewinding a conversation to an earlier prompt, as a sequence of decisions.
//!
//! The native engine, the ledger and the receipts live outside; [`RewindMachine`] says what to do
//! with them next and what each answer means. An intent is durable before the engine is touched,
//! and the ledger is durable before the receipt, so an interrupted rewind is taken up again under
//! the identity it began with.

use crate::digest::text_views;
use crate::session::ledger::{
    active_len, has_pending, well_indexed, LedgerTurnState, SessionLedger, TurnStateView, TurnView,
};
use crate::session::{fault, invalid_config, operation, require_resident, Error, Fault};
use crate::text::{blank, copy_option, is_blank, option_view, same_option, same_text};
use vstd::prelude::*;

verus! {

/// What identifies a rewind: the operation, its session, and the exact turn it goes back to.
pub struct RewindIdentity {
    pub operation_id: Seq<char>,
    pub session_id: Seq<char>,
    pub target_prompt_index: u64,
    pub target_turn_id: Seq<char>,
    pub target_prompt_digest: Seq<char>,
    pub recovery_turn_id: Option<Seq<char>>,
    pub recovery_prompt_digest: Option<Seq<char>>,
}

/// The durable note that a rewind has begun.
#[derive(Debug, PartialEq, Eq)]
pub struct RewindIntent {
    pub operation_id: String,
    pub session_id: String,
    pub target_prompt_index: u64,
    pub target_turn_id: String,
    pub target_prompt_digest: String,
    pub recovery_turn_id: Option<String>,
    pub recovery_prompt_digest: Option<String>,
}

impl View for RewindIntent {
    type V = RewindIdentity;

    open spec fn view(&self) -> RewindIdentity {
        RewindIdentity {
            operation_id: self.operation_id@,
            session_id: self.session_id@,
            target_prompt_index: self.target_prompt_index,
            target_turn_id: self.target_turn_id@,
            target_prompt_digest: self.target_prompt_digest@,
            recovery_turn_id: option_view(self.recovery_turn_id),
            recovery_prompt_digest: option_view(self.recovery_prompt_digest),
        }
    }
}

impl RewindIntent {
    /// A second copy of the intent.
    pub fn duplicate(&self) -> (r: RewindIntent)
        ensures
            r@ == self@,
    {
        RewindIntent {
            operation_id: self.operation_id.clone(),
            session_id: self.session_id.clone(),
            target_prompt_index: self.target_prompt_index,
            target_turn_id: self.target_turn_id.clone(),
            target_prompt_digest: self.target_prompt_digest.clone(),
            recovery_turn_id: copy_option(&self.recovery_turn_id),
            recovery_prompt_digest: copy_option(&self.recovery_prompt_digest),
        }
    }

    /// Whether two intents are the same.
    pub fn same(&self, other: &RewindIntent) -> (r: bool)
        ensures
            r == (self@ == other@),
    {
        same_text(self.operation_id.as_str(), other.operation_id.as_str()) && same_text(
            self.session_id.as_str(),
            other.session_id.as_str(),
        ) && self.target_prompt_index == other.target_prompt_index && same_text(
            self.target_turn_id.as_str(),
            other.target_turn_id.as_str(),
        ) && same_text(self.target_prompt_digest.as_str(), other.target_prompt_digest.as_str())
            && same_option(&self.recovery_turn_id, &other.recovery_turn_id) && same_option(
            &self.recovery_prompt_digest,
            &other.recovery_prompt_digest,
        )
    }

    /// The receipt of the rewind that the intent began.
    pub fn receipt(&self) -> (r: ConversationRewindReceipt)
        ensures
            r@ == self@,
    {
        ConversationRewindReceipt {
            operation_id: self.operation_id.clone(),
            session_id: self.session_id.clone(),
            target_prompt_index: self.target_prompt_index,
            target_turn_id: self.target_turn_id.clone(),
            target_prompt_digest: self.target_prompt_digest.clone(),
            recovery_turn_id: copy_option(&self.recovery_turn_id),
            recovery_prompt_digest: copy_option(&self.recovery_prompt_digest),
        }
    }
}

/// The durable proof that a rewind was applied.
#[derive(Debug, PartialEq, Eq)]
pub struct ConversationRewindReceipt {
    pub operation_id: String,
    pub session_id: String,
    pub target_prompt_index: u64,
    pub target_turn_id: String,
    pub target_prompt_digest: String,
    pub recovery_turn_id: Option<String>,
    pub recovery_prompt_digest: Option<String>,
}

impl View for ConversationRewindReceipt {
    type V = RewindIdentity;

    open spec fn view(&self) -> RewindIdentity {
        RewindIdentity {
            operation_id: self.operation_id@,
            session_id: self.session_id@,
            target_prompt_index: self.target_prompt_index,
            target_turn_id: self.target_turn_id@,
            target_prompt_digest: self.target_prompt_digest@,
            recovery_turn_id: option_view(self.recovery_turn_id),
            recovery_prompt_digest: option_view(self.recovery_prompt_digest),
        }
    }
}

/// How far a rewind operation has come.
#[derive(Debug, PartialEq, Eq)]
pub enum ConversationRewindStatus {
    Absent,
    Pending {
        operation_id: String,
        session_id: String,
        target_prompt_index: u64,
        target_turn_id: String,
        target_prompt_digest: String,
        recovery_turn_id: Option<String>,
        recovery_prompt_digest: Option<String>,
    },
    Applied { receipt: ConversationRewindReceipt },
}

/// What a [`ConversationRewindStatus`] says.
pub enum RewindStatusView {
    Absent,
    Pending(RewindIdentity),
    Applied(RewindIdentity),
}

impl View for ConversationRewindStatus {
    type V = RewindStatusView;

    open spec fn view(&self) -> RewindStatusView {
        match self {
            ConversationRewindStatus::Absent => RewindStatusView::Absent,
            ConversationRewindStatus::Pending {
                operation_id,
                session_id,
                target_prompt_index,
                target_turn_id,
                target_prompt_digest,
                recovery_turn_id,
                recovery_prompt_digest,
            } => RewindStatusView::Pending(
                RewindIdentity {
                    operation_id: operation_id@,
                    session_id: session_id@,
                    target_prompt_index: *target_prompt_index,
                    target_turn_id: target_turn_id@,
                    target_prompt_digest: target_prompt_digest@,
                    recovery_turn_id: option_view(*recovery_turn_id),
                    recovery_prompt_digest: option_view(*recovery_prompt_digest),
                },
            ),
            ConversationRewindStatus::Applied { receipt } => RewindStatusView::Applied(receipt@),
        }
    }
}

/// What the stored receipt and intent of an operation say of it. A receipt decides; each document
/// must belong to the operation and to the session.
pub open spec fn status_outcome(
    session_id: Seq<char>,
    operation_id: Seq<char>,
    receipt: Option<RewindIdentity>,
    intent: Option<RewindIdentity>,
) -> Result<RewindStatusView, Fault> {
    match (receipt, intent) {
        (Some(known), _) => if known.operation_id != operation_id {
            Err(Fault::Operation("rewind receipt digest mismatch"@))
        } else if known.session_id != session_id {
            Err(Fault::Operation("rewind receipt belongs to a different native session"@))
        } else {
            Ok(RewindStatusView::Applied(known))
        },
        (None, Some(known)) => if known.operation_id != operation_id {
            Err(Fault::Operation("rewind intent digest mismatch"@))
        } else if known.session_id != session_id {
            Err(Fault::Operation("rewind intent belongs to a different native session"@))
        } else {
            Ok(RewindStatusView::Pending(known))
        },
        (None, None) => Ok(RewindStatusView::Absent),
    }
}

/// What a stored receipt says.
pub open spec fn receipt_view(receipt: Option<ConversationRewindReceipt>) -> Option<
    RewindIdentity,
> {
    match receipt {
        Some(r) => Some(r@),
        None => None,
    }
}

/// What a stored intent says.
pub open spec fn intent_view(intent: Option<RewindIntent>) -> Option<RewindIdentity> {
    match intent {
        Some(i) => Some(i@),
        None => None,
    }
}

/// How far an operation has come, by the documents that are stored under its identifier.
pub fn rewind_status(
    session_id: &str,
    operation_id: &str,
    receipt: Option<ConversationRewindReceipt>,
    intent: Option<RewindIntent>,
) -> (r: Result<ConversationRewindStatus, Error>)
    ensures
        match status_outcome(session_id@, operation_id@, receipt_view(receipt), intent_view(intent))
        {
            Ok(status) => r is Ok && r->Ok_0@ == status,
            Err(e) => fault(r) == Some(e),
        },
{
    match receipt {
        Some(receipt) => {
            if !same_text(receipt.operation_id.as_str(), operation_id) {
                return Err(operation("rewind receipt digest mismatch"));
            }
            if !same_text(receipt.session_id.as_str(), session_id) {
                return Err(operation("rewind receipt belongs to a different native session"));
            }
            Ok(ConversationRewindStatus::Applied { receipt })
        },
        None => match intent {
            None => Ok(ConversationRewindStatus::Absent),
            Some(intent) => {
                if !same_text(intent.operation_id.as_str(), operation_id) {
                    return Err(operation("rewind intent digest mismatch"));
                }
                if !same_text(intent.session_id.as_str(), session_id) {
                    return Err(operation("rewind intent belongs to a different native session"));
                }
                Ok(
                    ConversationRewindStatus::Pending {
                        operation_id: intent.operation_id,
                        session_id: intent.session_id,
                        target_prompt_index: intent.target_prompt_index,
                        target_turn_id: intent.target_turn_id,
                        target_prompt_digest: intent.target_prompt_digest,
                        recovery_turn_id: intent.recovery_turn_id,
                        recovery_prompt_digest: intent.recovery_prompt_digest,
                    },
                )
            },
        },
    }
}

/// A request to rewind. A recovery names the exact turn that must be taken back.
#[derive(Debug, PartialEq, Eq)]
pub struct RewindRequest {
    pub session_id: String,
    pub operation_id: String,
    pub target_prompt_index: u64,
    /// Turn and prompt digest of the unsettled turn, for a recovery.
    pub unsettled: Option<(String, String)>,
}

/// What a [`RewindRequest`] says.
pub struct RewindRequestView {
    pub session_id: Seq<char>,
    pub operation_id: Seq<char>,
    pub target_prompt_index: u64,
    pub unsettled: Option<(Seq<char>, Seq<char>)>,
}

impl View for RewindRequest {
    type V = RewindRequestView;

    open spec fn view(&self) -> RewindRequestView {
        RewindRequestView {
            session_id: self.session_id@,
            operation_id: self.operation_id@,
            target_prompt_index: self.target_prompt_index,
            unsettled: match self.unsettled {
                Some((turn, digest)) => Some((turn@, digest@)),
                None => None,
            },
        }
    }
}

impl RewindRequestView {
    pub open spec fn recovery_turn(self) -> Option<Seq<char>> {
        match self.unsettled {
            Some((turn, _)) => Some(turn),
            None => None,
        }
    }

    pub open spec fn recovery_digest(self) -> Option<Seq<char>> {
        match self.unsettled {
            Some((_, digest)) => Some(digest),
            None => None,
        }
    }

    /// Whether a known rewind is the one that is asked for.
    pub open spec fn asks_for(self, known: RewindIdentity) -> bool {
        &&& known.session_id == self.session_id
        &&& known.target_prompt_index == self.target_prompt_index
        &&& known.recovery_turn_id == self.recovery_turn()
        &&& known.recovery_prompt_digest == self.recovery_digest()
    }
}

impl RewindRequest {
    fn recovery_turn(&self) -> (r: Option<String>)
        ensures
            option_view(r) == self@.recovery_turn(),
    {
        match &self.unsettled {
            Some(pair) => Some(pair.0.clone()),
            None => None,
        }
    }

    fn recovery_digest(&self) -> (r: Option<String>)
        ensures
            option_view(r) == self@.recovery_digest(),
    {
        match &self.unsettled {
            Some(pair) => Some(pair.1.clone()),
            None => None,
        }
    }

    fn asks_for(&self, known: &RewindIntent) -> (r: bool)
        ensures
            r == self@.asks_for(known@),
    {
        let turn = self.recovery_turn();
        let digest = self.recovery_digest();
        same_text(known.session_id.as_str(), self.session_id.as_str()) && known.target_prompt_index
            == self.target_prompt_index && same_option(&known.recovery_turn_id, &turn)
            && same_option(&known.recovery_prompt_digest, &digest)
    }
}

/// How a rewind begins.
pub enum BeginView {
    /// The rewind was applied before: its receipt is the answer.
    Replay(RewindIdentity),
    /// The rewind goes on, under the pending identity when there is one.
    Go(Option<RewindIdentity>),
}

/// How a request begins, by the state of its session and of its operation.
pub open spec fn begin_outcome(
    request: RewindRequestView,
    resident: bool,
    active: bool,
    status: RewindStatusView,
) -> Result<BeginView, Fault> {
    if is_blank(request.operation_id) {
        Err(Fault::InvalidConfig("rewind operation id is required"@))
    } else if !resident {
        Err(Fault::Operation("session is not resident"@))
    } else if active {
        Err(Fault::Operation("cannot rewind a conversation while the session is active"@))
    } else {
        match status {
            RewindStatusView::Applied(known) => if request.asks_for(known) {
                Ok(BeginView::Replay(known))
            } else {
                Err(
                    Fault::Operation(
                        "rewind operation id is already bound to another request identity"@,
                    ),
                )
            },
            RewindStatusView::Pending(known) => if request.asks_for(known) {
                Ok(BeginView::Go(Some(known)))
            } else {
                Err(
                    Fault::Operation(
                        "rewind operation id is already bound to another pending request identity"@,
                    ),
                )
            },
            RewindStatusView::Absent => Ok(BeginView::Go(None)),
        }
    }
}

/// Whether a turn can be what a request goes back to.
pub open spec fn is_target(
    request: RewindRequestView,
    pending: Option<RewindIdentity>,
    turn: TurnView,
) -> bool {
    turn.runtime_prompt_index == request.target_prompt_index && match (pending, request.unsettled) {
        (Some(known), _) => turn.turn_id == known.target_turn_id && turn.prompt_digest
            == known.target_prompt_digest,
        (None, None) => turn.state is Completed,
        (None, Some((id, digest))) => !(turn.state is Discarded) && turn.turn_id == id
            && turn.prompt_digest == digest,
    }
}

/// Whether `p` is the position of the first turn that a request can go back to.
pub open spec fn target_at(
    request: RewindRequestView,
    pending: Option<RewindIdentity>,
    turns: Seq<TurnView>,
    p: int,
) -> bool {
    &&& 0 <= p < turns.len()
    &&& is_target(request, pending, turns[p])
    &&& forall|i: int| 0 <= i < p ==> !is_target(request, pending, #[trigger] turns[i])
}

/// Whether the turn at `p` is the unsettled tail of the history: nothing pending stands before
/// it, and only discarded turns stand behind it.
pub open spec fn unsettled_tail(turns: Seq<TurnView>, p: int) -> bool {
    &&& forall|i: int| 0 <= i < p ==> !((#[trigger] turns[i]).state is Pending)
    &&& forall|i: int| p < i < turns.len() ==> (#[trigger] turns[i]).state is Discarded
}

/// The identity of a rewind to a turn.
pub open spec fn identity_of(request: RewindRequestView, turn: TurnView) -> RewindIdentity {
    RewindIdentity {
        operation_id: request.operation_id,
        session_id: request.session_id,
        target_prompt_index: request.target_prompt_index,
        target_turn_id: turn.turn_id,
        target_prompt_digest: turn.prompt_digest,
        recovery_turn_id: request.recovery_turn(),
        recovery_prompt_digest: request.recovery_digest(),
    }
}

/// The identity that a request gets from the ledger, or why it gets none.
pub open spec fn plan_outcome(
    request: RewindRequestView,
    pending: Option<RewindIdentity>,
    turns: Seq<TurnView>,
) -> Result<RewindIdentity, Fault> {
    if request.unsettled is None && has_pending(turns) {
        Err(Fault::Operation("cannot perform a user rewind with an unsettled native Turn"@))
    } else if exists|p: int| target_at(request, pending, turns, p) {
        let p = choose|p: int| target_at(request, pending, turns, p);
        if request.unsettled is Some && !unsettled_tail(turns, p) {
            Err(
                Fault::Operation(
                    "recovery rewind is restricted to the exact unsettled history tail"@,
                ),
            )
        } else if pending is Some && pending->Some_0 != identity_of(request, turns[p]) {
            Err(Fault::Operation("pending rewind identity differs from the durable Turn ledger"@))
        } else {
            Ok(identity_of(request, turns[p]))
        }
    } else if request.unsettled is Some {
        Err(Fault::Operation("recovery rewind target does not match the pending native Turn"@))
    } else {
        Err(Fault::Operation("rewind target is not a settled entry in the native Turn ledger"@))
    }
}

/// There is at most one first target.
pub proof fn lemma_target_unique(
    request: RewindRequestView,
    pending: Option<RewindIdentity>,
    turns: Seq<TurnView>,
    p: int,
    q: int,
)
    requires
        target_at(request, pending, turns, p),
        target_at(request, pending, turns, q),
    ensures
        p == q,
{
    if p < q {
        assert(!is_target(request, pending, turns[p]));
    } else if q < p {
        assert(!is_target(request, pending, turns[q]));
    }
}

/// Where a request goes back to, when the ledger has such a turn.
fn target_position(
    request: &RewindRequest,
    pending: &Option<RewindIntent>,
    ledger: &SessionLedger,
) -> (r: Option<usize>)
    ensures
        match r {
            Some(p) => target_at(request@, intent_view(*pending), ledger@, p as int),
            None => forall|p: int| !target_at(request@, intent_view(*pending), ledger@, p),
        },
{
    let mut i: usize = 0;
    while i < ledger.entries.len()
        invariant
            i <= ledger.entries@.len(),
            forall|j: int|
                0 <= j < i ==> !is_target(request@, intent_view(*pending), #[trigger] ledger@[j]),
        decreases ledger.entries@.len() - i,
    {
        let entry = &ledger.entries[i];
        assert(ledger@[i as int] == entry@);
        let fits = entry.runtime_prompt_index == request.target_prompt_index && match (
            pending,
            &request.unsettled,
        ) {
            (Some(known), _) => same_text(entry.turn_id.as_str(), known.target_turn_id.as_str())
                && same_text(entry.prompt_digest.as_str(), known.target_prompt_digest.as_str()),
            (None, None) => entry.state.is_completed(),
            (None, Some(pair)) => !entry.state.is_discarded() && same_text(
                entry.turn_id.as_str(),
                pair.0.as_str(),
            ) && same_text(entry.prompt_digest.as_str(), pair.1.as_str()),
        };
        if fits {
            return Some(i);
        }
        i += 1;
    }
    None
}

/// Whether the turn at `p` is the unsettled tail of the history.
fn is_unsettled_tail(ledger: &SessionLedger, p: usize) -> (r: bool)
    requires
        p < ledger@.len(),
    ensures
        r == unsettled_tail(ledger@, p as int),
{
    let mut i: usize = 0;
    while i < p
        invariant
            i <= p < ledger@.len(),
            forall|j: int| 0 <= j < i ==> !((#[trigger] ledger@[j]).state is Pending),
        decreases p - i,
    {
        if ledger.entries[i].state.is_pending() {
            assert(ledger@[i as int].state is Pending);
            return false;
        }
        i += 1;
    }
    ledger.only_discarded_behind(p)
}

/// Finds the turn that a request goes back to and gives the rewind its identity.
pub fn plan_rewind(
    request: &RewindRequest,
    pending: &Option<RewindIntent>,
    ledger: &SessionLedger,
) -> (r: Result<RewindIntent, Error>)
    ensures
        match plan_outcome(request@, intent_view(*pending), ledger@) {
            Ok(identity) => r is Ok && r->Ok_0@ == identity,
            Err(e) => fault(r) == Some(e),
        },
{
    let recovery = request.unsettled.is_some();
    if !recovery && ledger.any_pending() {
        return Err(operation("cannot perform a user rewind with an unsettled native Turn"));
    }
    let p: usize = match target_position(request, pending, ledger) {
        Some(p) => p,
        None => {
            return Err(
                operation(
                    if recovery {
                        "recovery rewind target does not match the pending native Turn"
                    } else {
                        "rewind target is not a settled entry in the native Turn ledger"
                    },
                ),
            );
        },
    };
    proof {
        let q = choose|q: int| target_at(request@, intent_view(*pending), ledger@, q);
        lemma_target_unique(request@, intent_view(*pending), ledger@, p as int, q);
    }
    if recovery && !is_unsettled_tail(ledger, p) {
        return Err(operation("recovery rewind is restricted to the exact unsettled history tail"));
    }
    let entry = &ledger.entries[p];
    assert(ledger@[p as int] == entry@);
    let intent = RewindIntent {
        operation_id: request.operation_id.clone(),
        session_id: request.session_id.clone(),
        target_prompt_index: request.target_prompt_index,
        target_turn_id: entry.turn_id.clone(),
        target_prompt_digest: entry.prompt_digest.clone(),
        recovery_turn_id: request.recovery_turn(),
        recovery_prompt_digest: request.recovery_digest(),
    };
    if let Some(known) = pending {
        if !known.same(&intent) {
            return Err(operation("pending rewind identity differs from the durable Turn ledger"));
        }
    }
    Ok(intent)
}

/// A point of the native conversation that can be gone back to.
#[derive(Debug, PartialEq, Eq)]
pub struct RewindPointWire {
    pub prompt_index: u64,
    pub created_at: String,
    pub num_file_snapshots: u64,
    pub has_file_changes: bool,
    pub prompt_preview: Option<String>,
    pub origin_prompt_digest: Option<String>,
}

/// A point of a conversation that can be gone back to, as hosts see it. The digest of the exact
/// prompt tells a stale point from a new one that took its place.
#[derive(Debug, PartialEq, Eq)]
pub struct RewindPoint {
    pub prompt_index: u64,
    pub prompt_digest: Option<String>,
    pub created_at: String,
    pub file_snapshots: u64,
    pub has_file_changes: bool,
    pub prompt_preview: Option<String>,
}

/// Whether a host's point says what a native point says.
pub open spec fn shows_point(point: RewindPoint, wire: RewindPointWire) -> bool {
    &&& point.prompt_index == wire.prompt_index
    &&& option_view(point.prompt_digest) == option_view(wire.origin_prompt_digest)
    &&& point.created_at@ == wire.created_at@
    &&& point.file_snapshots == wire.num_file_snapshots
    &&& point.has_file_changes == wire.has_file_changes
    &&& option_view(point.prompt_preview) == option_view(wire.prompt_preview)
}

/// The points of a conversation as hosts see them, in order.
pub fn rewind_points(points: &Vec<RewindPointWire>) -> (r: Vec<RewindPoint>)
    ensures
        r@.len() == points@.len(),
        forall|i: int| 0 <= i < r@.len() ==> shows_point(#[trigger] r@[i], points@[i]),
{
    let mut out: Vec<RewindPoint> = Vec::new();
    let mut i: usize = 0;
    while i < points.len()
        invariant
            i <= points@.len(),
            out@.len() == i,
            forall|j: int| 0 <= j < i ==> shows_point(#[trigger] out@[j], points@[j]),
        decreases points@.len() - i,
    {
        let wire = &points[i];
        out.push(
            RewindPoint {
                prompt_index: wire.prompt_index,
                prompt_digest: copy_option(&wire.origin_prompt_digest),
                created_at: wire.created_at.clone(),
                file_snapshots: wire.num_file_snapshots,
                has_file_changes: wire.has_file_changes,
                prompt_preview: copy_option(&wire.prompt_preview),
            },
        );
        i += 1;
    }
    out
}

/// What a rewind reads from each native point: its place and its prompt digest.
pub open spec fn point_views(points: Seq<RewindPointWire>) -> Seq<(u64, Option<Seq<char>>)> {
    Seq::new(
        points.len(),
        |i: int| (points[i].prompt_index, option_view(points[i].origin_prompt_digest)),
    )
}

/// The prompt digest of the first turn from position `from` on that stands at a place of the
/// active timeline.
pub open spec fn digest_at(turns: Seq<TurnView>, place: u64, from: int) -> Option<Seq<char>>
    decreases turns.len() - from,
{
    if from < 0 || from >= turns.len() {
        None
    } else if turns[from].runtime_prompt_index == place && !(turns[from].state is Discarded) {
        Some(turns[from].prompt_digest)
    } else {
        digest_at(turns, place, from + 1)
    }
}

/// What is wrong with the native points from position `from` on: each must stand at its place,
/// with the prompt that the ledger has there.
pub open spec fn points_fault(
    points: Seq<(u64, Option<Seq<char>>)>,
    turns: Seq<TurnView>,
    from: int,
) -> Option<Fault>
    decreases points.len() - from,
{
    if from < 0 || from >= points.len() {
        None
    } else if points[from].0 != from {
        Some(Fault::Operation("native Grok rewind points are not a contiguous prompt history"@))
    } else if digest_at(turns, points[from].0, 0) != points[from].1 {
        Some(Fault::Operation("native Grok prompt prefix differs from the durable Turn ledger"@))
    } else {
        points_fault(points, turns, from + 1)
    }
}

/// Whether the native conversation already stands at the target, or why that cannot be told.
pub open spec fn applied_outcome(
    points: Seq<(u64, Option<Seq<char>>)>,
    target: u64,
    turns: Seq<TurnView>,
) -> Result<bool, Fault> {
    match points_fault(points, turns, 0) {
        Some(e) => Err(e),
        None => if points.len() < target {
            Err(Fault::Operation("native Grok conversation is behind the pending rewind target"@))
        } else {
            Ok(points.len() == target)
        },
    }
}

/// The prompt digest that the ledger has at a place of the active timeline.
fn ledger_digest_at(ledger: &SessionLedger, place: u64) -> (r: Option<String>)
    ensures
        option_view(r) == digest_at(ledger@, place, 0),
{
    let mut i: usize = 0;
    while i < ledger.entries.len()
        invariant
            i <= ledger.entries@.len(),
            digest_at(ledger@, place, 0) == digest_at(ledger@, place, i as int),
        decreases ledger.entries@.len() - i,
    {
        let entry = &ledger.entries[i];
        assert(ledger@[i as int] == entry@);
        if entry.runtime_prompt_index == place && !entry.state.is_discarded() {
            return Some(entry.prompt_digest.clone());
        }
        i += 1;
    }
    None
}

/// Whether the native conversation already stands at the target. The points must form the exact
/// prefix of the ledger; the number of prompts alone never decides.
pub fn native_rewind_already_applied(
    points: &Vec<RewindPointWire>,
    target_prompt_index: u64,
    ledger: &SessionLedger,
) -> (r: Result<bool, Error>)
    ensures
        match applied_outcome(point_views(points@), target_prompt_index, ledger@) {
            Ok(applied) => r is Ok && r->Ok_0 == applied,
            Err(e) => fault(r) == Some(e),
        },
{
    let ghost views = point_views(points@);
    let mut expected: usize = 0;
    while expected < points.len()
        invariant
            expected <= points@.len(),
            views == point_views(points@),
            points_fault(views, ledger@, 0) == points_fault(views, ledger@, expected as int),
        decreases points@.len() - expected,
    {
        let point = &points[expected];
        if point.prompt_index != expected as u64 {
            return Err(operation("native Grok rewind points are not a contiguous prompt history"));
        }
        let digest = ledger_digest_at(ledger, point.prompt_index);
        if !same_option(&digest, &point.origin_prompt_digest) {
            return Err(operation("native Grok prompt prefix differs from the durable Turn ledger"));
        }
        expected += 1;
    }
    let count: u64 = points.len() as u64;
    if count < target_prompt_index {
        return Err(operation("native Grok conversation is behind the pending rewind target"));
    }
    Ok(count == target_prompt_index)
}

/// A conflict that the native engine reports.
#[derive(Debug, PartialEq, Eq)]
pub struct RewindConflictWire {
    pub path: String,
    pub conflict_type: String,
}

/// What the native engine says of a rewind that it was told to make.
#[derive(Debug, PartialEq, Eq)]
pub struct RewindResultWire {
    pub success: bool,
    pub target_prompt_index: u64,
    pub mode: String,
    pub reverted_files: Vec<String>,
    pub clean_files: Vec<String>,
    pub conflicts: Vec<RewindConflictWire>,
    /// Digest of the prompt that the engine went back to, when it named the prompt.
    pub prompt_text_digest: Option<String>,
    pub error: Option<String>,
}

/// What a [`RewindResultWire`] says.
pub struct RewindResultView {
    pub success: bool,
    pub target_prompt_index: u64,
    pub mode: Seq<char>,
    pub reverted_files: Seq<Seq<char>>,
    pub clean_files: Seq<Seq<char>>,
    /// Kind and path of each conflict.
    pub conflicts: Seq<(Seq<char>, Seq<char>)>,
    pub prompt_text_digest: Option<Seq<char>>,
    pub error: Option<Seq<char>>,
}

impl RewindResultView {
    /// Whether the engine touched any file.
    pub open spec fn touched_files(self) -> bool {
        self.reverted_files.len() > 0 || self.clean_files.len() > 0
    }
}

impl View for RewindResultWire {
    type V = RewindResultView;

    open spec fn view(&self) -> RewindResultView {
        RewindResultView {
            success: self.success,
            target_prompt_index: self.target_prompt_index,
            mode: self.mode@,
            reverted_files: text_views(self.reverted_files@),
            clean_files: text_views(self.clean_files@),
            conflicts: Seq::new(
                self.conflicts@.len(),
                |i: int| (self.conflicts@[i].conflict_type@, self.conflicts@[i].path@),
            ),
            prompt_text_digest: option_view(self.prompt_text_digest),
            error: option_view(self.error),
        }
    }
}

/// The only mode in which a conversation is rewound: no file is touched.
pub const CONVERSATION_ONLY: &'static str = "conversation_only";

/// How a failed native rewind is reported: by its own error, else by its first conflict, else by
/// its mode.
pub open spec fn native_failure(result: RewindResultView) -> Seq<char> {
    if result.error is Some {
        result.error->Some_0
    } else if result.conflicts.len() > 0 {
        "native conversation rewind reported "@ + result.conflicts[0].0 + " conflict at "@
            + result.conflicts[0].1
    } else if result.mode != CONVERSATION_ONLY@ {
        "native conversation rewind returned unexpected mode "@ + result.mode
    } else {
        "native conversation rewind failed or attempted a file mutation"@
    }
}

/// What is wrong with a native rewind: it must have gone to the target, touched no file, met no
/// conflict, and named the prompt that the ledger expects.
pub open spec fn executed_fault(
    result: RewindResultView,
    target: u64,
    expected_digest: Seq<char>,
) -> Option<Fault> {
    if !result.success || result.target_prompt_index != target || result.mode != CONVERSATION_ONLY@
        || result.touched_files() || result.conflicts.len() > 0 {
        Some(Fault::Operation(native_failure(result)))
    } else if result.prompt_text_digest is None {
        Some(Fault::Operation("native conversation rewind omitted its target prompt"@))
    } else if result.prompt_text_digest->Some_0 != expected_digest {
        Some(
            Fault::Operation(
                "native conversation rewind target differs from the durable Turn ledger"@,
            ),
        )
    } else {
        None
    }
}

/// Accepts or refuses what the native engine made of a rewind.
pub fn check_executed(result: &RewindResultWire, target: u64, expected_digest: &str) -> (r: Result<
    (),
    Error,
>)
    ensures
        fault(r) == executed_fault(result@, target, expected_digest@),
{
    let conversation = same_text(result.mode.as_str(), CONVERSATION_ONLY);
    if !result.success || result.target_prompt_index != target || !conversation
        || result.reverted_files.len() > 0 || result.clean_files.len() > 0
        || result.conflicts.len() > 0 {
        let message = match &result.error {
            Some(error) => error.clone(),
            None => {
                if result.conflicts.len() > 0 {
                    let mut out = "native conversation rewind reported ".to_owned();
                    out.append(result.conflicts[0].conflict_type.as_str());
                    out.append(" conflict at ");
                    out.append(result.conflicts[0].path.as_str());
                    out
                } else if !conversation {
                    let mut out = "native conversation rewind returned unexpected mode ".to_owned();
                    out.append(result.mode.as_str());
                    out
                } else {
                    "native conversation rewind failed or attempted a file mutation".to_owned()
                }
            },
        };
        return Err(Error::Operation(message));
    }
    match &result.prompt_text_digest {
        None => Err(operation("native conversation rewind omitted its target prompt")),
        Some(digest) => if same_text(digest.as_str(), expected_digest) {
            Ok(())
        } else {
            Err(operation("native conversation rewind target differs from the durable Turn ledger"))
        },
    }
}

/// The ledger with every turn at or behind the target discarded.
pub open spec fn discarded_from(turns: Seq<TurnView>, target: u64) -> Seq<TurnView> {
    Seq::new(
        turns.len(),
        |i: int|
            if turns[i].runtime_prompt_index >= target {
                TurnView { state: TurnStateView::Discarded, ..turns[i] }
            } else {
                turns[i]
            },
    )
}

/// Discards every turn at or behind the target.
pub fn discard_from(ledger: &mut SessionLedger, target: u64)
    ensures
        final(ledger)@ == discarded_from(old(ledger)@, target),
{
    let ghost before = ledger@;
    let mut i: usize = 0;
    while i < ledger.entries.len()
        invariant
            i <= before.len(),
            ledger@.len() == before.len(),
            ledger.entries@.len() == before.len(),
            forall|j: int|
                0 <= j < i ==> #[trigger] ledger@[j] == discarded_from(before, target)[j],
            forall|j: int| i <= j < before.len() ==> #[trigger] ledger@[j] == before[j],
        decreases before.len() - i,
    {
        assert(ledger@[i as int] == before[i as int]);
        if ledger.entries[i].runtime_prompt_index >= target {
            ledger.set_state(i, LedgerTurnState::Discarded);
            assert(ledger@.len() == ledger.entries@.len());
        }
        i += 1;
    }
    proof {
        assert(ledger@ =~= discarded_from(before, target));
    }
}

/// Where a rewind stands.
#[derive(Debug, PartialEq, Eq)]
pub enum RewindStage {
    /// Nothing is known yet.
    Asked,
    /// The operation may go on; the ledger is wanted.
    Opened { pending: Option<RewindIntent> },
    /// The intent is to be saved.
    Noting { intent: RewindIntent, ledger: SessionLedger },
    /// The intent is durable; the native points are wanted.
    Noted { intent: RewindIntent, ledger: SessionLedger },
    /// The native engine was told to rewind.
    Executing { intent: RewindIntent, ledger: SessionLedger },
    /// The native conversation stands at the target and is being made durable.
    Syncing { intent: RewindIntent, ledger: SessionLedger },
    /// The ledger is being saved.
    Recording { intent: RewindIntent },
    /// The receipt is being saved.
    Certifying { intent: RewindIntent },
    /// The intent is being removed.
    Clearing { intent: RewindIntent },
    /// The rewind is over.
    Over,
}

/// What a [`RewindStage`] says.
#[allow(inconsistent_fields)]
pub enum StageView {
    Asked,
    Opened { pending: Option<RewindIdentity> },
    Noting { intent: RewindIdentity, turns: Seq<TurnView> },
    Noted { intent: RewindIdentity, turns: Seq<TurnView> },
    Executing { intent: RewindIdentity, turns: Seq<TurnView> },
    Syncing { intent: RewindIdentity, turns: Seq<TurnView> },
    Recording { intent: RewindIdentity },
    Certifying { intent: RewindIdentity },
    Clearing { intent: RewindIdentity },
    Over,
}

impl View for RewindStage {
    type V = StageView;

    open spec fn view(&self) -> StageView {
        match self {
            RewindStage::Asked => StageView::Asked,
            RewindStage::Opened { pending } => StageView::Opened { pending: intent_view(*pending) },
            RewindStage::Noting { intent, ledger } => StageView::Noting {
                intent: intent@,
                turns: ledger@,
            },
            RewindStage::Noted { intent, ledger } => StageView::Noted {
                intent: intent@,
                turns: ledger@,
            },
            RewindStage::Executing { intent, ledger } => StageView::Executing {
                intent: intent@,
                turns: ledger@,
            },
            RewindStage::Syncing { intent, ledger } => StageView::Syncing {
                intent: intent@,
                turns: ledger@,
            },
            RewindStage::Recording { intent } => StageView::Recording { intent: intent@ },
            RewindStage::Certifying { intent } => StageView::Certifying { intent: intent@ },
            RewindStage::Clearing { intent } => StageView::Clearing { intent: intent@ },
            RewindStage::Over => StageView::Over,
        }
    }
}

/// What came back from outside.
#[derive(Debug, PartialEq, Eq)]
pub enum RewindEvent {
    /// The state of the session and of the operation.
    Status { resident: bool, active: bool, status: ConversationRewindStatus },
    Ledger(SessionLedger),
    IntentSaved,
    Points(Vec<RewindPointWire>),
    Executed(RewindResultWire),
    Synced,
    LedgerSaved,
    ReceiptSaved,
    IntentRemoved,
}

/// What a [`RewindEvent`] says.
pub enum RewindEventView {
    Status { resident: bool, active: bool, status: RewindStatusView },
    Ledger(Seq<TurnView>),
    IntentSaved,
    Points(Seq<(u64, Option<Seq<char>>)>),
    Executed(RewindResultView),
    Synced,
    LedgerSaved,
    ReceiptSaved,
    IntentRemoved,
}

impl View for RewindEvent {
    type V = RewindEventView;

    open spec fn view(&self) -> RewindEventView {
        match self {
            RewindEvent::Status { resident, active, status } => RewindEventView::Status {
                resident: *resident,
                active: *active,
                status: status@,
            },
            RewindEvent::Ledger(ledger) => RewindEventView::Ledger(ledger@),
            RewindEvent::IntentSaved => RewindEventView::IntentSaved,
            RewindEvent::Points(points) => RewindEventView::Points(point_views(points@)),
            RewindEvent::Executed(result) => RewindEventView::Executed(result@),
            RewindEvent::Synced => RewindEventView::Synced,
            RewindEvent::LedgerSaved => RewindEventView::LedgerSaved,
            RewindEvent::ReceiptSaved => RewindEventView::ReceiptSaved,
            RewindEvent::IntentRemoved => RewindEventView::IntentRemoved,
        }
    }
}

/// What is to be done outside next.
#[derive(Debug, PartialEq, Eq)]
pub enum RewindAction {
    LoadLedger,
    SaveIntent(RewindIntent),
    ReadPoints,
    /// Tell the engine to go back to a prompt, in the mode that touches no file.
    Execute { target_prompt_index: u64 },
    Sync,
    SaveLedger(SessionLedger),
    SaveReceipt(ConversationRewindReceipt),
    RemoveIntent { operation_id: String },
    Finish(ConversationRewindReceipt),
}

/// What a [`RewindAction`] says.
pub enum RewindActionView {
    LoadLedger,
    SaveIntent(RewindIdentity),
    ReadPoints,
    Execute { target_prompt_index: u64 },
    Sync,
    SaveLedger(Seq<TurnView>),
    SaveReceipt(RewindIdentity),
    RemoveIntent { operation_id: Seq<char> },
    Finish(RewindIdentity),
}

impl View for RewindAction {
    type V = RewindActionView;

    open spec fn view(&self) -> RewindActionView {
        match self {
            RewindAction::LoadLedger => RewindActionView::LoadLedger,
            RewindAction::SaveIntent(intent) => RewindActionView::SaveIntent(intent@),
            RewindAction::ReadPoints => RewindActionView::ReadPoints,
            RewindAction::Execute { target_prompt_index } => RewindActionView::Execute {
                target_prompt_index: *target_prompt_index,
            },
            RewindAction::Sync => RewindActionView::Sync,
            RewindAction::SaveLedger(ledger) => RewindActionView::SaveLedger(ledger@),
            RewindAction::SaveReceipt(receipt) => RewindActionView::SaveReceipt(receipt@),
            RewindAction::RemoveIntent { operation_id } => RewindActionView::RemoveIntent {
                operation_id: operation_id@,
            },
            RewindAction::Finish(receipt) => RewindActionView::Finish(receipt@),
        }
    }
}

/// The words for an answer to a question that was not asked.
pub const UNEXPECTED_ANSWER: &'static str = "rewind received an answer out of order";

/// What a stage makes of an answer: the next stage and what to do, or why the rewind stops.
pub open spec fn rewind_step(
    request: RewindRequestView,
    stage: StageView,
    event: RewindEventView,
) -> Result<(StageView, RewindActionView), Fault> {
    match (stage, event) {
        (StageView::Asked, RewindEventView::Status { resident, active, status }) => {
            match begin_outcome(request, resident, active, status) {
                Err(e) => Err(e),
                Ok(BeginView::Replay(known)) => Ok(
                    (StageView::Over, RewindActionView::Finish(known)),
                ),
                Ok(BeginView::Go(pending)) => Ok(
                    (StageView::Opened { pending }, RewindActionView::LoadLedger),
                ),
            }
        },
        (StageView::Opened { pending }, RewindEventView::Ledger(turns)) => {
            match plan_outcome(request, pending, turns) {
                Err(e) => Err(e),
                Ok(intent) => if pending is Some {
                    Ok((StageView::Noted { intent, turns }, RewindActionView::ReadPoints))
                } else {
                    Ok((StageView::Noting { intent, turns }, RewindActionView::SaveIntent(intent)))
                },
            }
        },
        (StageView::Noting { intent, turns }, RewindEventView::IntentSaved) => Ok(
            (StageView::Noted { intent, turns }, RewindActionView::ReadPoints),
        ),
        (StageView::Noted { intent, turns }, RewindEventView::Points(points)) => {
            match applied_outcome(points, intent.target_prompt_index, turns) {
                Err(e) => Err(e),
                Ok(true) => Ok((StageView::Syncing { intent, turns }, RewindActionView::Sync)),
                Ok(false) => if intent.target_prompt_index > usize::MAX {
                    Err(Fault::InvalidConfig("rewind target is out of range"@))
                } else {
                    Ok(
                        (
                            StageView::Executing { intent, turns },
                            RewindActionView::Execute {
                                target_prompt_index: intent.target_prompt_index,
                            },
                        ),
                    )
                },
            }
        },
        (StageView::Executing { intent, turns }, RewindEventView::Executed(result)) => {
            match executed_fault(result, intent.target_prompt_index, intent.target_prompt_digest) {
                Some(e) => Err(e),
                None => Ok((StageView::Syncing { intent, turns }, RewindActionView::Sync)),
            }
        },
        (StageView::Syncing { intent, turns }, RewindEventView::Synced) => Ok(
            (
                StageView::Recording { intent },
                RewindActionView::SaveLedger(discarded_from(turns, intent.target_prompt_index)),
            ),
        ),
        (StageView::Recording { intent }, RewindEventView::LedgerSaved) => Ok(
            (StageView::Certifying { intent }, RewindActionView::SaveReceipt(intent)),
        ),
        (StageView::Certifying { intent }, RewindEventView::ReceiptSaved) => Ok(
            (
                StageView::Clearing { intent },
                RewindActionView::RemoveIntent { operation_id: intent.operation_id },
            ),
        ),
        (StageView::Clearing { intent }, RewindEventView::IntentRemoved) => Ok(
            (StageView::Over, RewindActionView::Finish(intent)),
        ),
        _ => Err(Fault::Operation(UNEXPECTED_ANSWER@)),
    }
}

/// A rewind under way.
pub struct RewindMachine {
    request: RewindRequest,
    stage: RewindStage,
}

impl RewindMachine {
    pub closed spec fn request(&self) -> RewindRequestView {
        self.request@
    }

    pub closed spec fn stage(&self) -> StageView {
        self.stage@
    }

    /// Begins a rewind: the first thing wanted is the state of the session and of the operation.
    pub fn new(request: RewindRequest) -> (r: RewindMachine)
        ensures
            r.request() == request@,
            r.stage() == StageView::Asked,
    {
        RewindMachine { request, stage: RewindStage::Asked }
    }

    /// How the rewind begins, by the state of the session and of the operation.
    fn begin(&self, resident: bool, active: bool, status: ConversationRewindStatus) -> (r: Result<
        (RewindStage, RewindAction),
        Error,
    >)
        ensures
            match rewind_step(
                self.request(),
                StageView::Asked,
                (RewindEventView::Status { resident, active, status: status@ }),
            ) {
                Ok((stage, action)) => r is Ok && r->Ok_0.0@ == stage && r->Ok_0.1@ == action,
                Err(e) => fault(r) == Some(e),
            },
    {
        if blank(self.request.operation_id.as_str()) {
            return Err(invalid_config("rewind operation id is required"));
        }
        require_resident(resident)?;
        if active {
            return Err(operation("cannot rewind a conversation while the session is active"));
        }
        match status {
            ConversationRewindStatus::Applied { receipt } => {
                let known = RewindIntent {
                    operation_id: receipt.operation_id.clone(),
                    session_id: receipt.session_id.clone(),
                    target_prompt_index: receipt.target_prompt_index,
                    target_turn_id: receipt.target_turn_id.clone(),
                    target_prompt_digest: receipt.target_prompt_digest.clone(),
                    recovery_turn_id: copy_option(&receipt.recovery_turn_id),
                    recovery_prompt_digest: copy_option(&receipt.recovery_prompt_digest),
                };
                if self.request.asks_for(&known) {
                    Ok((RewindStage::Over, RewindAction::Finish(receipt)))
                } else {
                    Err(
                        operation(
                            "rewind operation id is already bound to another request identity",
                        ),
                    )
                }
            },
            ConversationRewindStatus::Pending {
                operation_id,
                session_id,
                target_prompt_index,
                target_turn_id,
                target_prompt_digest,
                recovery_turn_id,
                recovery_prompt_digest,
            } => {
                let known = RewindIntent {
                    operation_id,
                    session_id,
                    target_prompt_index,
                    target_turn_id,
                    target_prompt_digest,
                    recovery_turn_id,
                    recovery_prompt_digest,
                };
                if self.request.asks_for(&known) {
                    Ok((RewindStage::Opened { pending: Some(known) }, RewindAction::LoadLedger))
                } else {
                    Err(
                        operation(
                            "rewind operation id is already bound to another pending request identity",
                        ),
                    )
                }
            },
            ConversationRewindStatus::Absent => {
                Ok((RewindStage::Opened { pending: None }, RewindAction::LoadLedger))
            },
        }
    }

    /// Takes an answer and says what to do next. A machine that stopped answers nothing more.
    pub fn step(self, event: RewindEvent) -> (r: Result<(RewindMachine, RewindAction), Error>)
        ensures
            match rewind_step(self.request(), self.stage(), event@) {
                Ok((stage, action)) => {
                    &&& r is Ok
                    &&& r->Ok_0.0.request() == self.request()
                    &&& r->Ok_0.0.stage() == stage
                    &&& r->Ok_0.1@ == action
                },
                Err(e) => fault(r) == Some(e),
            },
    {
        let (stage, action) = match (self.stage, event) {
            (RewindStage::Asked, RewindEvent::Status { resident, active, status }) => {
                let machine = RewindMachine { request: self.request, stage: RewindStage::Asked };
                let (stage, action) = machine.begin(resident, active, status)?;
                return Ok((RewindMachine { request: machine.request, stage }, action));
            },
            (RewindStage::Opened { pending }, RewindEvent::Ledger(ledger)) => {
                let intent = plan_rewind(&self.request, &pending, &ledger)?;
                if pending.is_some() {
                    (RewindStage::Noted { intent, ledger }, RewindAction::ReadPoints)
                } else {
                    let note = intent.duplicate();
                    (RewindStage::Noting { intent, ledger }, RewindAction::SaveIntent(note))
                }
            },
            (RewindStage::Noting { intent, ledger }, RewindEvent::IntentSaved) => (
                RewindStage::Noted { intent, ledger },
                RewindAction::ReadPoints,
            ),
            (RewindStage::Noted { intent, ledger }, RewindEvent::Points(points)) => {
                let target: u64 = intent.target_prompt_index;
                if native_rewind_already_applied(&points, target, &ledger)? {
                    (RewindStage::Syncing { intent, ledger }, RewindAction::Sync)
                } else {
                    if target > usize::MAX as u64 {
                        return Err(invalid_config("rewind target is out of range"));
                    }
                    (
                        RewindStage::Executing { intent, ledger },
                        RewindAction::Execute { target_prompt_index: target },
                    )
                }
            },
            (RewindStage::Executing { intent, ledger }, RewindEvent::Executed(result)) => {
                check_executed(
                    &result,
                    intent.target_prompt_index,
                    intent.target_prompt_digest.as_str(),
                )?;
                (RewindStage::Syncing { intent, ledger }, RewindAction::Sync)
            },
            (RewindStage::Syncing { intent, ledger }, RewindEvent::Synced) => {
                let mut after = ledger;
                discard_from(&mut after, intent.target_prompt_index);
                (RewindStage::Recording { intent }, RewindAction::SaveLedger(after))
            },
            (RewindStage::Recording { intent }, RewindEvent::LedgerSaved) => {
                let receipt = intent.receipt();
                (RewindStage::Certifying { intent }, RewindAction::SaveReceipt(receipt))
            },
            (RewindStage::Certifying { intent }, RewindEvent::ReceiptSaved) => {
                let operation_id = intent.operation_id.clone();
                (RewindStage::Clearing { intent }, RewindAction::RemoveIntent { operation_id })
            },
            (RewindStage::Clearing { intent }, RewindEvent::IntentRemoved) => (
                RewindStage::Over,
                RewindAction::Finish(intent.receipt()),
            ),
            _ => {
                return Err(operation(UNEXPECTED_ANSWER));
            },
        };
        Ok((RewindMachine { request: self.request, stage }, action))
    }
}

/// Asking again for a rewind that was applied gives back its receipt and does nothing; asking for
/// another under the same operation is refused.
pub proof fn law_applied_rewinds_replay(request: RewindRequestView, known: RewindIdentity)
    requires
        !is_blank(request.operation_id),
    ensures
        ({
            let step = rewind_step(
                request,
                StageView::Asked,
                (RewindEventView::Status {
                    resident: true,
                    active: false,
                    status: RewindStatusView::Applied(known),
                }),
            );
            if request.asks_for(known) {
                step == Ok::<(StageView, RewindActionView), Fault>(
                    (StageView::Over, RewindActionView::Finish(known)),
                )
            } else {
                step is Err
            }
        }),
{
}

/// Where a rewind stands when it was given some answers, and what it asked for last; or why it
/// stopped.
pub open spec fn rewind_run(request: RewindRequestView, events: Seq<RewindEventView>) -> Result<
    (StageView, Option<RewindActionView>),
    Fault,
>
    decreases events.len(),
{
    if events.len() == 0 {
        Ok((StageView::Asked, None))
    } else {
        match rewind_run(request, events.drop_last()) {
            Err(e) => Err(e),
            Ok((stage, _)) => match rewind_step(request, stage, events.last()) {
                Err(e) => Err(e),
                Ok((next, action)) => Ok((next, Some(action))),
            },
        }
    }
}

/// Whether the rewind that a stage is about is the one that is asked for.
pub open spec fn stage_asked_for(request: RewindRequestView, stage: StageView) -> bool {
    match stage {
        StageView::Asked => true,
        StageView::Opened { pending } => pending is Some ==> request.asks_for(pending->Some_0),
        StageView::Noting { intent, .. } => request.asks_for(intent),
        StageView::Noted { intent, .. } => request.asks_for(intent),
        StageView::Executing { intent, .. } => request.asks_for(intent),
        StageView::Syncing { intent, .. } => request.asks_for(intent),
        StageView::Recording { intent } => request.asks_for(intent),
        StageView::Certifying { intent } => request.asks_for(intent),
        StageView::Clearing { intent } => request.asks_for(intent),
        StageView::Over => true,
    }
}

/// However a rewind comes to its end, through whatever answers, it is the one that was asked for:
/// every intent that it saves, every receipt that it saves, and the receipt that it ends with.
pub proof fn law_rewinds_are_those_asked_for(
    request: RewindRequestView,
    events: Seq<RewindEventView>,
)
    ensures
        rewind_run(request, events) matches Ok((stage, action)) ==> {
            &&& stage_asked_for(request, stage)
            &&& action == Some(RewindActionView::Finish(action->Some_0->Finish_0)) ==> stage is Over
                && request.asks_for(action->Some_0->Finish_0)
            &&& action == Some(RewindActionView::SaveIntent(action->Some_0->SaveIntent_0))
                ==> request.asks_for(action->Some_0->SaveIntent_0)
            &&& action == Some(RewindActionView::SaveReceipt(action->Some_0->SaveReceipt_0))
                ==> request.asks_for(action->Some_0->SaveReceipt_0)
        },
    decreases events.len(),
{
    if events.len() > 0 {
        law_rewinds_are_those_asked_for(request, events.drop_last());
    }
}

/// No two turns of the ledger share an identifier.
pub open spec fn distinct_turns(turns: Seq<TurnView>) -> bool {
    forall|i: int, j: int|
        0 <= i < j < turns.len() ==> (#[trigger] turns[i]).turn_id != (
        #[trigger] turns[j]).turn_id
}

/// A rewind that was interrupted after its intent was saved is planned again under the same
/// identity, whether or not the ledger had been saved by then.
pub proof fn law_interrupted_rewinds_resume(request: RewindRequestView, turns: Seq<TurnView>)
    requires
        distinct_turns(turns),
        plan_outcome(request, None, turns) is Ok,
    ensures
        ({
            let known = plan_outcome(request, None, turns)->Ok_0;
            &&& request.asks_for(known)
            &&& plan_outcome(request, Some(known), turns) == Ok::<RewindIdentity, Fault>(known)
            &&& plan_outcome(
                request,
                Some(known),
                discarded_from(turns, request.target_prompt_index),
            ) == Ok::<RewindIdentity, Fault>(known)
        }),
{
    let known = plan_outcome(request, None, turns)->Ok_0;
    let p = choose|p: int| target_at(request, None, turns, p);
    assert(target_at(request, None, turns, p));
    assert(known == identity_of(request, turns[p]));
    let after = discarded_from(turns, request.target_prompt_index);
    lemma_resumed(request, known, turns, p);
    assert(distinct_turns(after));
    assert(after[p].turn_id == turns[p].turn_id);
    if request.unsettled is Some {
        assert(unsettled_tail(after, p));
    } else {
        assert(!has_pending(after)) by {
            assert forall|i: int| 0 <= i < after.len() implies !((#[trigger] after[i]).state
                is Pending) by {
                assert(!(turns[i].state is Pending));
            }
        }
    }
    assert(identity_of(request, after[p]) == known);
    lemma_resumed(request, known, after, p);
}

/// A ledger in which the turn of a known rewind stands plans that rewind again.
proof fn lemma_resumed(
    request: RewindRequestView,
    known: RewindIdentity,
    turns: Seq<TurnView>,
    p: int,
)
    requires
        distinct_turns(turns),
        0 <= p < turns.len(),
        turns[p].runtime_prompt_index == request.target_prompt_index,
        known == identity_of(request, turns[p]),
        request.unsettled is None ==> !has_pending(turns),
        request.unsettled is Some ==> unsettled_tail(turns, p),
    ensures
        plan_outcome(request, Some(known), turns) == Ok::<RewindIdentity, Fault>(known),
{
    assert(target_at(request, Some(known), turns, p)) by {
        assert forall|i: int| 0 <= i < p implies !is_target(
            request,
            Some(known),
            #[trigger] turns[i],
        ) by {
            assert(turns[i].turn_id != turns[p].turn_id);
        }
    }
    let q = choose|q: int| target_at(request, Some(known), turns, q);
    assert(target_at(request, Some(known), turns, q));
    lemma_target_unique(request, Some(known), turns, p, q);
}

/// A rewind is taken as applied only when the native conversation is exactly the ledger's prefix:
/// each point stands at its place with the prompt that the ledger has there, and there are as
/// many points as the target says.
pub proof fn law_prefix_is_exact(
    points: Seq<(u64, Option<Seq<char>>)>,
    target: u64,
    turns: Seq<TurnView>,
)
    ensures
        applied_outcome(points, target, turns) is Ok ==> (forall|i: int|
            0 <= i < points.len() ==> (#[trigger] points[i]).0 == i && points[i].1 == digest_at(
                turns,
                i as u64,
                0,
            )),
        applied_outcome(points, target, turns) == Ok::<bool, Fault>(true) ==> points.len()
            == target,
{
    if points_fault(points, turns, 0) is None {
        assert forall|i: int| 0 <= i < points.len() implies (#[trigger] points[i]).0 == i
            && points[i].1 == digest_at(turns, i as u64, 0) by {
            lemma_points(points, turns, 0, i);
        }
    }
}

proof fn lemma_points(
    points: Seq<(u64, Option<Seq<char>>)>,
    turns: Seq<TurnView>,
    from: int,
    i: int,
)
    requires
        0 <= from <= i < points.len(),
        points_fault(points, turns, from) is None,
    ensures
        points[i].0 == i,
        points[i].1 == digest_at(turns, points[i].0, 0),
    decreases i - from,
{
    if from < i {
        lemma_points(points, turns, from + 1, i);
    }
}

/// A rewind keeps exactly the turns in front of its target: the active timeline ends there, the
/// places stay in order, and the next turn takes the target's place.
pub proof fn law_rewind_keeps_the_prefix(turns: Seq<TurnView>, target: u64)
    requires
        well_indexed(turns),
        target <= active_len(turns),
    ensures
        active_len(discarded_from(turns, target)) == target,
        well_indexed(discarded_from(turns, target)),
        forall|i: int|
            0 <= i < turns.len() && (#[trigger] turns[i]).runtime_prompt_index < target
                ==> discarded_from(turns, target)[i] == turns[i],
        forall|i: int|
            0 <= i < turns.len() && (#[trigger] turns[i]).runtime_prompt_index >= target
                ==> discarded_from(turns, target)[i].state is Discarded,
{
    let after = discarded_from(turns, target);
    assert forall|i: int| 0 <= i <= turns.len() implies #[trigger] active_len(after.take(i))
        == if active_len(turns.take(i)) < target {
        active_len(turns.take(i))
    } else {
        target as nat
    } by {
        lemma_prefix(turns, target, i);
    }
    assert(after.take(turns.len() as int) =~= after);
    assert(turns.take(turns.len() as int) =~= turns);
    assert forall|i: int| 0 <= i < after.len() && !((#[trigger] after[i]).state
        is Discarded) implies after[i].runtime_prompt_index == active_len(after.take(i)) by {
        assert(after[i] == turns[i]);
        assert(turns[i].runtime_prompt_index == active_len(turns.take(i)));
        assert(active_len(after.take(i)) == active_len(turns.take(i)));
    }
}

proof fn lemma_prefix(turns: Seq<TurnView>, target: u64, i: int)
    requires
        well_indexed(turns),
        0 <= i <= turns.len(),
    ensures
        active_len(discarded_from(turns, target).take(i)) == if active_len(turns.take(i)) < target {
            active_len(turns.take(i))
        } else {
            target as nat
        },
    decreases i,
{
    let after = discarded_from(turns, target);
    if i == 0 {
        assert(after.take(0) =~= Seq::empty());
        assert(turns.take(0) =~= Seq::empty());
    } else {
        lemma_prefix(turns, target, i - 1);
        assert(after.take(i).drop_last() =~= after.take(i - 1));
        assert(turns.take(i).drop_last() =~= turns.take(i - 1));
        assert(after.take(i).last() == after[i - 1]);
        assert(turns.take(i).last() == turns[i - 1]);
    }
}

/// The engine is told to rewind only after the intent is durable: from a stage that holds a saved
/// intent, for that intent's target, and never when the native conversation already stands there.
pub proof fn law_intents_precede_native_work(
    request: RewindRequestView,
    stage: StageView,
    event: RewindEventView,
)
    ensures
        (rewind_step(request, stage, event) is Ok && rewind_step(request, stage, event)->Ok_0.1
            is Execute) ==> stage is Noted,
        (rewind_step(request, stage, event) is Ok && rewind_step(request, stage, event)->Ok_0.0
            is Noted) ==> (stage is Noting && event is IntentSaved)
                || (stage matches StageView::Opened {
            pending,
        } && pending is Some),
        (rewind_step(request, stage, event) is Ok && rewind_step(request, stage, event)->Ok_0.1
            is SaveReceipt) ==> stage is Recording && event is LedgerSaved,
{
}

proof fn lemma_digest_at(turns: Seq<TurnView>, place: u64, from: int)
    requires
        0 <= from,
    ensures
        digest_at(turns, place, from) is None <==> (forall|i: int|
            from <= i < turns.len() ==> (#[trigger] turns[i]).runtime_prompt_index != place
                || turns[i].state is Discarded),
        forall|p: int|
            from <= p < turns.len() && (#[trigger] turns[p]).runtime_prompt_index == place && !(
            turns[p].state is Discarded) && (forall|i: int|
                from <= i < p ==> (#[trigger] turns[i]).runtime_prompt_index != place
                    || turns[i].state is Discarded) ==> digest_at(turns, place, from) == Some(
                turns[p].prompt_digest,
            ),
    decreases turns.len() - from,
{
    if from < turns.len() {
        if !(turns[from].runtime_prompt_index == place && !(turns[from].state is Discarded)) {
            lemma_digest_at(turns, place, from + 1);
        }
    }
}

/// The prompt that a ledger has at a place is that of the first turn there that is not discarded,
/// and there is none where every turn there is.
pub proof fn law_places_hold_the_turn_that_was_kept(turns: Seq<TurnView>, place: u64, p: int)
    requires
        0 <= p < turns.len(),
        turns[p].runtime_prompt_index == place,
        !(turns[p].state is Discarded),
        forall|i: int|
            0 <= i < p ==> (#[trigger] turns[i]).runtime_prompt_index != place || turns[i].state
                is Discarded,
    ensures
        digest_at(turns, place, 0) == Some(turns[p].prompt_digest),
{
    lemma_digest_at(turns, place, 0);
}

proof fn lemma_points_sound(
    points: Seq<(u64, Option<Seq<char>>)>,
    turns: Seq<TurnView>,
    from: int,
)
    requires
        0 <= from,
        forall|i: int|
            from <= i < points.len() ==> (#[trigger] points[i]).0 == i && points[i].1 == digest_at(
                turns,
                points[i].0,
                0,
            ),
    ensures
        points_fault(points, turns, from) is None,
    decreases points.len() - from,
{
    if from < points.len() {
        assert(points[from].0 == from);
        lemma_points_sound(points, turns, from + 1);
    }
}

/// Where the native conversation is a prefix of the ledger, point by point, it stands at the target
/// exactly where it has as many points as the target says, is ahead of it with more, and cannot be
/// rewound to it with fewer.
pub proof fn law_exact_prefixes_are_recognised(
    points: Seq<(u64, Option<Seq<char>>)>,
    target: u64,
    turns: Seq<TurnView>,
)
    requires
        forall|i: int|
            0 <= i < points.len() ==> (#[trigger] points[i]).0 == i && points[i].1 == digest_at(
                turns,
                points[i].0,
                0,
            ),
    ensures
        points.len() == target ==> applied_outcome(points, target, turns) == Ok::<bool, Fault>(
            true,
        ),
        points.len() > target ==> applied_outcome(points, target, turns) == Ok::<bool, Fault>(
            false,
        ),
        points.len() < target ==> applied_outcome(points, target, turns) is Err,
{
    lemma_points_sound(points, turns, 0);
}

/// A new rewind is planned wherever the ledger allows it. A user's goes back to the first completed
/// turn at the asked place, where no turn is pending. A recovery goes back to the turn that it
/// names, where that is the first such turn, nothing is pending before it and only discarded turns
/// stand behind it.
pub proof fn law_allowed_rewinds_are_planned(
    request: RewindRequestView,
    turns: Seq<TurnView>,
    p: int,
)
    requires
        0 <= p < turns.len(),
        turns[p].runtime_prompt_index == request.target_prompt_index,
        request.unsettled is None ==> turns[p].state is Completed && (forall|i: int|
            0 <= i < p ==> (#[trigger] turns[i]).runtime_prompt_index
                != request.target_prompt_index || !(turns[i].state is Completed)) && (forall|i: int|
            0 <= i < turns.len() ==> !((#[trigger] turns[i]).state is Pending)),
        request.unsettled matches Some((id, digest)) ==> !(turns[p].state is Discarded)
            && turns[p].turn_id == id && turns[p].prompt_digest == digest && (forall|i: int|
            0 <= i < p ==> !((#[trigger] turns[i]).state is Pending) && turns[i].turn_id != id) && (
        forall|i: int| p < i < turns.len() ==> (#[trigger] turns[i]).state is Discarded),
    ensures
        plan_outcome(request, None, turns) matches Ok(identity) && identity.target_turn_id
            == turns[p].turn_id && identity.target_prompt_digest == turns[p].prompt_digest,
{
    assert(target_at(request, None, turns, p));
    let q = choose|q: int| target_at(request, None, turns, q);
    lemma_target_unique(request, None, turns, p, q);
}

} // verus!
