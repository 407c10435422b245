//! The durable authority of evolution ledgers: what a commit does, and what is read back.
//!
//! A commit is one atomic transition: it appends one event and puts the event's resulting state in
//! place of the stored one, when the stored revision is still the event's baseline. No operation
//! rewrites or removes a committed event.

use crate::evolution::event::{EventView, RefinementEvent};
use crate::evolution::state::{EvolutionState, StateView};
use crate::evolution::wire::{event_bytes, event_read, state_bytes, state_read};
use crate::evolution::{
    EvolutionError, HarnessScope, Refusal, ScopeView, MAX_EVOLUTION_STATE_BYTES,
    MAX_REFINEMENT_EVENT_BYTES,
};
use crate::text::same_text;
use crate::session_state::ConformanceOpen;
use crate::text_map::TextMap;
use vstd::prelude::*;

verus! {

pub const EVOLUTION_STORE_SCHEMA_MARKER: &'static str = "sophon-sdk.harness-evolution-store";

pub const EVOLUTION_STORE_SCHEMA_VERSION: u32 = 1;

/// Why a store refused something.
#[derive(Debug, PartialEq, Eq)]
pub enum EvolutionStoreError {
    Validation(String),
    Corrupt(String),
    Storage(String),
}

/// What an [`EvolutionStoreError`] says.
pub enum StoreFault {
    Validation(Seq<char>),
    Corrupt(Seq<char>),
    Storage(Seq<char>),
}

impl View for EvolutionStoreError {
    type V = StoreFault;

    open spec fn view(&self) -> StoreFault {
        match self {
            EvolutionStoreError::Validation(m) => StoreFault::Validation(m@),
            EvolutionStoreError::Corrupt(m) => StoreFault::Corrupt(m@),
            EvolutionStoreError::Storage(m) => StoreFault::Storage(m@),
        }
    }
}

impl StoreFault {
    /// The fault in words.
    pub open spec fn words(self) -> Seq<char> {
        match self {
            StoreFault::Validation(m) => "evolution state validation failed: "@ + m,
            StoreFault::Corrupt(m) => "stored evolution state is corrupt: "@ + m,
            StoreFault::Storage(m) => "evolution storage failed: "@ + m,
        }
    }
}

impl EvolutionStoreError {
    /// The error in words.
    pub fn describe(&self) -> (r: String)
        ensures
            r@ == self@.words(),
    {
        match self {
            EvolutionStoreError::Validation(m) => {
                let mut out = "evolution state validation failed: ".to_owned();
                out.append(m.as_str());
                out
            },
            EvolutionStoreError::Corrupt(m) => {
                let mut out = "stored evolution state is corrupt: ".to_owned();
                out.append(m.as_str());
                out
            },
            EvolutionStoreError::Storage(m) => {
                let mut out = "evolution storage failed: ".to_owned();
                out.append(m.as_str());
                out
            },
        }
    }
}

/// The fault that a result carries.
pub open spec fn store_fault<T>(r: Result<T, EvolutionStoreError>) -> Option<StoreFault> {
    match r {
        Ok(_) => None,
        Err(e) => Some(e@),
    }
}

/// A refusal of the ledger as a store states it.
pub fn refused<T>(r: Result<T, EvolutionError>) -> (out: Result<T, EvolutionStoreError>)
    ensures
        match r {
            Ok(value) => out is Ok && out->Ok_0 == value,
            Err(e) => store_fault(out) == Some(StoreFault::Validation(e@.words())),
        },
{
    match r {
        Ok(value) => Ok(value),
        Err(error) => Err(EvolutionStoreError::Validation(error.describe())),
    }
}

/// What came of a commit.
#[derive(Clone, Copy, Debug, PartialEq, Eq, Structural)]
pub enum EvolutionCommit {
    Committed,
    /// The stored revision is not the event's baseline. Nothing was written.
    RevisionConflict { stored_revision: Option<u64> },
    /// The commit may have taken effect. The caller reloads the scope, and never takes this for
    /// a failure.
    CommitUnknown,
}

/// What is stored of one scope: its state, and its events from the first on.
pub struct LedgerView {
    pub state: StateView,
    pub events: Seq<EventView>,
}

/// What is stored, by the text of the scope.
pub type Ledgers = Map<Seq<char>, LedgerView>;

/// What is wrong with a transition: its state must be valid, and must be the one that the event
/// results in.
pub open spec fn transition_fault(state: StateView, event: EventView) -> Option<StoreFault> {
    match state.fault() {
        Some(e) => Some(StoreFault::Validation(e.words())),
        None => if state.scope != event.scope {
            Some(
                StoreFault::Validation("a commit's state and event address different scopes"@),
            )
        } else if state.revision != event.resulting_revision {
            Some(
                StoreFault::Validation(
                    "a commit's state revision is not the event's resulting revision"@,
                ),
            )
        } else {
            None
        },
    }
}

/// Checks a transition before anything is written.
pub fn check_transition(state: &EvolutionState, event: &RefinementEvent) -> (r: Result<
    (),
    EvolutionStoreError,
>)
    ensures
        store_fault(r) == transition_fault(state@, event@),
{
    refused(state.validate())?;
    if !state.scope.same(&event.scope) {
        return Err(
            EvolutionStoreError::Validation(
                "a commit's state and event address different scopes".to_owned(),
            ),
        );
    }
    if state.revision != event.resulting_revision {
        return Err(
            EvolutionStoreError::Validation(
                "a commit's state revision is not the event's resulting revision".to_owned(),
            ),
        );
    }
    Ok(())
}

/// What is wrong with writing a transition: the transition itself, or the size of what it writes.
pub open spec fn writing_fault(state: StateView, event: EventView) -> Option<StoreFault> {
    match transition_fault(state, event) {
        Some(e) => Some(e),
        None => match state_bytes(state) {
            Err(e) => Some(StoreFault::Validation(e.words())),
            Ok(_) => match event_bytes(event) {
                Err(e) => Some(StoreFault::Validation(e.words())),
                Ok(_) => None,
            },
        },
    }
}

/// What a transition writes.
pub struct CommitBytes {
    pub state: Vec<u8>,
    pub event: Vec<u8>,
}

/// Checks a transition and writes it down.
pub fn write_transition(state: &EvolutionState, event: &RefinementEvent) -> (r: Result<
    CommitBytes,
    EvolutionStoreError,
>)
    ensures
        match writing_fault(state@, event@) {
            Some(e) => store_fault(r) == Some(e),
            None => r is Ok && state_read(r->Ok_0.state@) == Ok::<StateView, Refusal>(state@)
                && event_read(r->Ok_0.event@) == Ok::<EventView, Refusal>(event@),
        },
{
    check_transition(state, event)?;
    let state_text = refused(state.to_json_vec())?;
    let event_text = refused(event.to_json_vec())?;
    Ok(CommitBytes { state: state_text, event: event_text })
}

/// Decides on a commit by the stored revision; an absent state counts as revision zero.
pub fn decide_commit(stored_revision: Option<u64>, based_on_revision: u64) -> (r: EvolutionCommit)
    ensures
        r == (if stored_base(stored_revision) == based_on_revision {
            EvolutionCommit::Committed
        } else {
            EvolutionCommit::RevisionConflict { stored_revision }
        }),
{
    let base: u64 = match stored_revision {
        Some(revision) => revision,
        None => 0,
    };
    if base == based_on_revision {
        EvolutionCommit::Committed
    } else {
        EvolutionCommit::RevisionConflict { stored_revision }
    }
}

/// The revision that a stored one counts as.
pub open spec fn stored_base(stored_revision: Option<u64>) -> u64 {
    match stored_revision {
        Some(revision) => revision,
        None => 0,
    }
}

/// Reads a stored state, which must be the one of its scope and revision.
pub open spec fn stored_state_read(scope: ScopeView, revision: u64, bytes: Seq<u8>) -> Result<
    StateView,
    StoreFault,
> {
    if bytes.len() > MAX_EVOLUTION_STATE_BYTES {
        Err(StoreFault::Corrupt("stored evolution state exceeds its size bound"@))
    } else {
        match state_read(bytes) {
            Err(e) => Err(StoreFault::Corrupt(e.words())),
            Ok(state) => if state.scope != scope || state.revision != revision {
                Err(
                    StoreFault::Corrupt(
                        "stored evolution state does not address its own scope and revision"@,
                    ),
                )
            } else {
                Ok(state)
            },
        }
    }
}

/// Reads a stored state.
pub fn decode_state(scope: &HarnessScope, revision: u64, bytes: &[u8]) -> (r: Result<
    EvolutionState,
    EvolutionStoreError,
>)
    ensures
        match stored_state_read(scope@, revision, bytes@) {
            Ok(state) => r is Ok && r->Ok_0@ == state,
            Err(e) => store_fault(r) == Some(e),
        },
{
    if bytes.len() > MAX_EVOLUTION_STATE_BYTES {
        return Err(
            EvolutionStoreError::Corrupt("stored evolution state exceeds its size bound".to_owned()),
        );
    }
    let state = match EvolutionState::from_json_slice(bytes) {
        Ok(state) => state,
        Err(error) => {
            return Err(EvolutionStoreError::Corrupt(error.describe()));
        },
    };
    if !state.scope.same(scope) || state.revision != revision {
        return Err(
            EvolutionStoreError::Corrupt(
                "stored evolution state does not address its own scope and revision".to_owned(),
            ),
        );
    }
    Ok(state)
}

/// Reads a stored event.
pub fn decode_event(bytes: &[u8]) -> (r: Result<RefinementEvent, EvolutionStoreError>)
    ensures
        if bytes@.len() > MAX_REFINEMENT_EVENT_BYTES {
            store_fault(r) == Some(
                StoreFault::Corrupt("stored refinement event exceeds its size bound"@),
            )
        } else {
            match event_read(bytes@) {
                Ok(event) => r is Ok && r->Ok_0@ == event,
                Err(e) => store_fault(r) == Some(StoreFault::Corrupt(e.words())),
            }
        },
{
    if bytes.len() > MAX_REFINEMENT_EVENT_BYTES {
        return Err(
            EvolutionStoreError::Corrupt(
                "stored refinement event exceeds its size bound".to_owned(),
            ),
        );
    }
    match RefinementEvent::from_json_slice(bytes) {
        Ok(event) => Ok(event),
        Err(error) => Err(EvolutionStoreError::Corrupt(error.describe())),
    }
}

/// A state that was committed is read back from its bytes as it was, under its own scope and
/// revision.
pub proof fn law_committed_states_read_back(state: StateView, bytes: Seq<u8>)
    requires
        state_read(bytes) == Ok::<StateView, Refusal>(state),
    ensures
        stored_state_read(state.scope, state.revision, bytes) == Ok::<StateView, StoreFault>(state),
{
}

/// Whether an event with the identity is stored.
pub open spec fn has_event(events: Seq<EventView>, id: Seq<char>) -> bool {
    exists|i: int| 0 <= i < events.len() && (#[trigger] events[i]).event_id == id
}

/// What is stored of a scope.
pub open spec fn ledger_at(ledgers: Ledgers, scope: Seq<char>) -> Option<LedgerView> {
    if ledgers.dom().contains(scope) {
        Some(ledgers[scope])
    } else {
        None
    }
}

/// The events of a scope, from the first on.
pub open spec fn events_at(ledgers: Ledgers, scope: Seq<char>) -> Seq<EventView> {
    match ledger_at(ledgers, scope) {
        Some(ledger) => ledger.events,
        None => Seq::empty(),
    }
}

/// The stored revision of a scope.
pub open spec fn revision_at(ledgers: Ledgers, scope: Seq<char>) -> Option<u64> {
    match ledger_at(ledgers, scope) {
        Some(ledger) => Some(ledger.state.revision),
        None => None,
    }
}

/// The refusal of an event whose identity is stored already.
pub open spec fn repeated_event() -> StoreFault {
    StoreFault::Storage("an event with this identity is already stored"@)
}

/// What a commit answers, and what is stored after it.
pub open spec fn commit_on(ledgers: Ledgers, state: StateView, event: EventView) -> (
    Result<EvolutionCommit, StoreFault>,
    Ledgers,
) {
    let scope = state.scope.text();
    let stored = revision_at(ledgers, scope);
    match writing_fault(state, event) {
        Some(e) => (Err(e), ledgers),
        None => if stored_base(stored) != event.based_on_revision {
            (Ok(EvolutionCommit::RevisionConflict { stored_revision: stored }), ledgers)
        } else if has_event(events_at(ledgers, scope), event.event_id) {
            (Err(repeated_event()), ledgers)
        } else {
            (
                Ok(EvolutionCommit::Committed),
                ledgers.insert(
                    scope,
                    LedgerView { state, events: events_at(ledgers, scope).push(event) },
                ),
            )
        },
    }
}

/// Up to `limit` events of a scope, the newest first.
pub open spec fn history_on(ledgers: Ledgers, scope: Seq<char>, limit: nat) -> Seq<EventView> {
    let events = events_at(ledgers, scope);
    let count = if limit < events.len() {
        limit
    } else {
        events.len()
    };
    Seq::new(count, |i: int| events[events.len() - 1 - i])
}

/// The position of the first event with an identity, from one on.
pub open spec fn event_from(events: Seq<EventView>, id: Seq<char>, from: int) -> Option<EventView>
    decreases events.len() - from,
{
    if from < 0 || from >= events.len() {
        None
    } else if events[from].event_id == id {
        Some(events[from])
    } else {
        event_from(events, id, from + 1)
    }
}

/// What a state that was loaded says.
pub open spec fn loaded(r: Result<Option<EvolutionState>, EvolutionStoreError>) -> Result<
    Option<StateView>,
    StoreFault,
> {
    match r {
        Ok(Some(state)) => Ok(Some(state@)),
        Ok(None) => Ok(None),
        Err(e) => Err(e@),
    }
}

/// What each event says.
pub open spec fn event_views(events: Seq<RefinementEvent>) -> Seq<EventView> {
    Seq::new(events.len(), |i: int| events[i]@)
}

/// The answer to a commit.
pub open spec fn committed(r: Result<EvolutionCommit, EvolutionStoreError>) -> Result<
    EvolutionCommit,
    StoreFault,
> {
    match r {
        Ok(commit) => Ok(commit),
        Err(e) => Err(e@),
    }
}

/// Whether a store gives the answer that is owed: that a commit took effect it may leave unsaid,
/// and a refusal of the storage itself it may put in words of its own.
pub open spec fn answers(
    given: Result<EvolutionCommit, StoreFault>,
    owed: Result<EvolutionCommit, StoreFault>,
) -> bool {
    match owed {
        Ok(EvolutionCommit::Committed) => given == owed || given == Ok::<
            EvolutionCommit,
            StoreFault,
        >(EvolutionCommit::CommitUnknown),
        Err(StoreFault::Storage(_)) => given matches Err(StoreFault::Storage(_)),
        _ => given == owed,
    }
}

/// The state of a scope.
pub open spec fn state_on(ledgers: Ledgers, scope: Seq<char>) -> Option<StateView> {
    match ledger_at(ledgers, scope) {
        Some(ledger) => Some(ledger.state),
        None => None,
    }
}

/// One thing that was asked of a store, with its answer. Opening a handle, going on through
/// another one and giving all of them up are asked by a suite alone.
pub enum EvolutionCall {
    Open(ConformanceOpen, Result<(), StoreFault>),
    Through(ConformanceOpen),
    GiveUp,
    Load(Seq<char>, Result<Option<StateView>, StoreFault>),
    Commit(StateView, EventView, Result<EvolutionCommit, StoreFault>),
    History(Seq<char>, usize, Result<Seq<EventView>, StoreFault>),
    Event(Seq<char>, Seq<char>, Result<Option<EventView>, StoreFault>),
}

/// What a history that was read says.
pub open spec fn recalled(r: Result<Vec<RefinementEvent>, EvolutionStoreError>) -> Result<
    Seq<EventView>,
    StoreFault,
> {
    match r {
        Ok(events) => Ok(event_views(events@)),
        Err(e) => Err(e@),
    }
}

/// What an event that was looked up says.
pub open spec fn looked_up(r: Result<Option<RefinementEvent>, EvolutionStoreError>) -> Result<
    Option<EventView>,
    StoreFault,
> {
    match r {
        Ok(Some(event)) => Ok(Some(event@)),
        Ok(None) => Ok(None),
        Err(e) => Err(e@),
    }
}

/// The durable authority of evolution ledgers. An implementation that is `lawful` keeps `ledgers`
/// and answers from them alone; that a commit took effect it may leave unsaid. Of any other
/// nothing is promised but that `calls` tells what it was asked and what it answered.
pub trait EvolutionStore: Sized {
    /// Whether the implementation keeps the contract. One that does not say is not taken to.
    open spec fn lawful(&self) -> bool {
        false
    }

    /// What it stores.
    open spec fn ledgers(&self) -> Ledgers {
        Map::empty()
    }

    /// What it was asked and what it answered, in order. It is a history and nothing that is
    /// stored; an implementation that is itself verified keeps it as ghost state.
    open spec fn calls(&self) -> Seq<EvolutionCall> {
        Seq::empty()
    }

    fn load(&mut self, scope: &HarnessScope) -> (r: Result<
        Option<EvolutionState>,
        EvolutionStoreError,
    >)
        ensures
            final(self).calls() == old(self).calls().push(
                EvolutionCall::Load(scope@.text(), loaded(r)),
            ),
            old(self).lawful() ==> final(self).lawful() && final(self).ledgers() == old(
                self).ledgers() && loaded(r) == Ok::<Option<StateView>, StoreFault>(
                state_on(old(self).ledgers(), scope@.text()),
            ),
    ;

    /// Commits a state and its event, when the stored revision is still the event's baseline.
    fn commit(&mut self, state: &EvolutionState, event: &RefinementEvent) -> (r: Result<
        EvolutionCommit,
        EvolutionStoreError,
    >)
        ensures
            final(self).calls() == old(self).calls().push(
                EvolutionCall::Commit(state@, event@, committed(r)),
            ),
            old(self).lawful() ==> {
                let (answer, after) = commit_on(old(self).ledgers(), state@, event@);
                &&& final(self).lawful()
                &&& final(self).ledgers() == after
                &&& answers(committed(r), answer)
            },
    ;

    /// Up to `limit` events of a scope, the newest first.
    fn history(&mut self, scope: &HarnessScope, limit: usize) -> (r: Result<
        Vec<RefinementEvent>,
        EvolutionStoreError,
    >)
        ensures
            final(self).calls() == old(self).calls().push(
                EvolutionCall::History(scope@.text(), limit, recalled(r)),
            ),
            old(self).lawful() ==> final(self).lawful() && final(self).ledgers() == old(
                self).ledgers() && r is Ok && event_views(r->Ok_0@) == history_on(
                old(self).ledgers(),
                scope@.text(),
                limit as nat,
            ),
    ;

    /// The event of a scope with an identity.
    fn event(&mut self, scope: &HarnessScope, event_id: &str) -> (r: Result<
        Option<RefinementEvent>,
        EvolutionStoreError,
    >)
        ensures
            final(self).calls() == old(self).calls().push(
                EvolutionCall::Event(scope@.text(), event_id@, looked_up(r)),
            ),
            old(self).lawful() ==> final(self).lawful() && final(self).ledgers() == old(
                self).ledgers() && r is Ok && (match r->Ok_0 {
                Some(event) => Some(event@),
                None => None,
            }) == event_from(events_at(old(self).ledgers(), scope@.text()), event_id@, 0),
    ;
}

/// Whether a commit is settled, by its answer and the state that is read back.
pub open spec fn commit_settled(
    result: EvolutionCommit,
    loaded_state: Option<StateView>,
    intended: StateView,
) -> bool {
    result is Committed || (result is CommitUnknown && loaded_state == Some(intended))
}

/// A conflict never settles a commit, a commit that was answered always does, and one whose effect
/// is not known does exactly where the intended state, and no other, is read back.
pub proof fn law_unknown_commits_settle_by_reading_back(
    result: EvolutionCommit,
    loaded_state: Option<StateView>,
    intended: StateView,
)
    ensures
        result is Committed ==> commit_settled(result, loaded_state, intended),
        result is RevisionConflict ==> !commit_settled(result, loaded_state, intended),
        result is CommitUnknown && loaded_state is None ==> !commit_settled(
            result,
            loaded_state,
            intended,
        ),
        result is CommitUnknown && loaded_state is Some ==> (commit_settled(
            result,
            loaded_state,
            intended,
        ) <==> loaded_state->Some_0 == intended),
{
}

/// Decides whether a commit is settled. One whose effect is not known is settled only when exactly
/// the intended state is read back.
pub fn evolution_commit_reconciled(
    result: &EvolutionCommit,
    loaded_state: &Option<EvolutionState>,
    intended: &EvolutionState,
) -> (r: bool)
    ensures
        r == commit_settled(
            *result,
            match *loaded_state {
                Some(state) => Some(state@),
                None => None,
            },
            intended@,
        ),
{
    match result {
        EvolutionCommit::Committed => true,
        EvolutionCommit::CommitUnknown => match loaded_state {
            Some(state) => state.same(intended),
            None => false,
        },
        EvolutionCommit::RevisionConflict { .. } => false,
    }
}

/// One ledger of a book.
struct BookLedger {
    state: EvolutionState,
    events: Vec<RefinementEvent>,
}

impl View for BookLedger {
    type V = LedgerView;

    closed spec fn view(&self) -> LedgerView {
        LedgerView { state: self.state@, events: event_views(self.events@) }
    }
}

/// The ledgers of a book, by scope.
struct LedgerShelf {
    ledgers: TextMap<BookLedger>,
}

impl View for LedgerShelf {
    type V = Ledgers;

    closed spec fn view(&self) -> Ledgers {
        self.ledgers@.map_values(|ledger: BookLedger| ledger@)
    }
}

fn copy_events(events: &Vec<RefinementEvent>) -> (r: Vec<RefinementEvent>)
    ensures
        event_views(r@) == event_views(events@),
{
    let mut out: Vec<RefinementEvent> = Vec::new();
    let mut i: usize = 0;
    while i < events.len()
        invariant
            i <= events@.len(),
            out@.len() == i,
            forall|j: int| 0 <= j < i ==> (#[trigger] out@[j])@ == events@[j]@,
        decreases events@.len() - i,
    {
        out.push(events[i].duplicate());
        i += 1;
    }
    proof {
        assert(event_views(out@) =~= event_views(events@));
    }
    out
}

fn knows_event(events: &Vec<RefinementEvent>, id: &str) -> (r: bool)
    ensures
        r == has_event(event_views(events@), id@),
{
    let ghost all = event_views(events@);
    let mut i: usize = 0;
    while i < events.len()
        invariant
            i <= events@.len(),
            all == event_views(events@),
            forall|j: int| 0 <= j < i ==> (#[trigger] all[j]).event_id != id@,
        decreases events@.len() - i,
    {
        assert(all[i as int] == events@[i as int]@);
        if same_text(events[i].event_id(), id) {
            assert(all[i as int].event_id == id@);
            return true;
        }
        i += 1;
    }
    false
}

impl LedgerShelf {
    fn load(&mut self, scope: &HarnessScope) -> (r: Result<
        Option<EvolutionState>,
        EvolutionStoreError,
    >)
        ensures
            final(self)@ == old(self)@,
            loaded(r) == Ok::<Option<StateView>, StoreFault>(state_on(old(self)@, scope@.text())),
    {
        let key = scope.to_text();
        match self.ledgers.get(key.as_str()) {
            Some(ledger) => Ok(Some(ledger.state.duplicate())),
            None => Ok(None),
        }
    }

    fn commit(&mut self, state: &EvolutionState, event: &RefinementEvent) -> (r: Result<
        EvolutionCommit,
        EvolutionStoreError,
    >)
        ensures
            (committed(r), final(self)@) == commit_on(old(self)@, state@, event@),
    {
        write_transition(state, event)?;
        let key = state.scope.to_text();
        let mut events: Vec<RefinementEvent> = Vec::new();
        let mut stored_revision: Option<u64> = None;
        proof {
            assert(event_views(events@) =~= Seq::empty());
        }
        if let Some(ledger) = self.ledgers.get(key.as_str()) {
            stored_revision = Some(ledger.state.revision);
            events = copy_events(&ledger.events);
        }
        let decision = decide_commit(stored_revision, event.based_on_revision);
        match decision {
            EvolutionCommit::Committed => {},
            other => {
                return Ok(other);
            },
        }
        if knows_event(&events, event.event_id()) {
            return Err(
                EvolutionStoreError::Storage(
                    "an event with this identity is already stored".to_owned(),
                ),
            );
        }
        let ghost before = self@;
        let ghost known = event_views(events@);
        events.push(event.duplicate());
        let ledger = BookLedger { state: state.duplicate(), events };
        let ghost after = ledger@;
        self.ledgers.insert(key.as_str(), ledger);
        proof {
            assert(after.events =~= known.push(event@));
            assert(self@ =~= before.insert(key@, after));
        }
        Ok(EvolutionCommit::Committed)
    }

    fn history(&mut self, scope: &HarnessScope, limit: usize) -> (r: Result<
        Vec<RefinementEvent>,
        EvolutionStoreError,
    >)
        ensures
            final(self)@ == old(self)@,
            recalled(r) == Ok::<Seq<EventView>, StoreFault>(
                history_on(old(self)@, scope@.text(), limit as nat),
            ),
    {
        let key = scope.to_text();
        let ghost wanted = history_on(self@, key@, limit as nat);
        let mut out: Vec<RefinementEvent> = Vec::new();
        if let Some(ledger) = self.ledgers.get(key.as_str()) {
            let ghost all = event_views(ledger.events@);
            let count: usize = ledger.events.len();
            let mut i: usize = 0;
            while i < count && i < limit
                invariant
                    i <= count,
                    i <= limit,
                    count == ledger.events@.len(),
                    out@.len() == i,
                    forall|j: int|
                        0 <= j < i ==> (#[trigger] out@[j])@ == ledger.events@[count - 1 - j]@,
                decreases count - i,
            {
                out.push(ledger.events[count - 1 - i].duplicate());
                i += 1;
            }
            proof {
                assert(events_at(self@, key@) == all);
                assert(event_views(out@) =~= wanted);
            }
        } else {
            proof {
                assert(event_views(out@) =~= wanted);
            }
        }
        Ok(out)
    }

    fn event(&mut self, scope: &HarnessScope, event_id: &str) -> (r: Result<
        Option<RefinementEvent>,
        EvolutionStoreError,
    >)
        ensures
            final(self)@ == old(self)@,
            looked_up(r) == Ok::<Option<EventView>, StoreFault>(
                event_from(events_at(old(self)@, scope@.text()), event_id@, 0),
            ),
    {
        let key = scope.to_text();
        if let Some(ledger) = self.ledgers.get(key.as_str()) {
            let ghost all = event_views(ledger.events@);
            let mut i: usize = 0;
            while i < ledger.events.len()
                invariant
                    i <= ledger.events@.len(),
                    all == event_views(ledger.events@),
                    event_from(all, event_id@, 0) == event_from(all, event_id@, i as int),
                    all == events_at(self@, key@),
                    key@ == scope@.text(),
                    *self == *old(self),
                decreases ledger.events@.len() - i,
            {
                assert(all[i as int] == ledger.events@[i as int]@);
                if same_text(ledger.events[i].event_id(), event_id) {
                    return Ok(Some(ledger.events[i].duplicate()));
                }
                i += 1;
            }
        }
        Ok(None)
    }
}

/// A store that keeps its ledgers in memory, with what was asked of it.
pub struct EvolutionBook {
    shelf: LedgerShelf,
    calls: Ghost<Seq<EvolutionCall>>,
}

impl EvolutionBook {
    /// An empty store.
    pub fn new() -> (r: EvolutionBook)
        ensures
            r.ledgers() == Ledgers::empty(),
            r.calls() == Seq::<EvolutionCall>::empty(),
            r.lawful(),
    {
        let shelf = LedgerShelf { ledgers: TextMap::new() };
        proof {
            assert(shelf@ =~= Ledgers::empty());
        }
        EvolutionBook { shelf, calls: Ghost(Seq::empty()) }
    }

    /// Notes one thing that the book was asked.
    pub(crate) fn note(&mut self, call: Ghost<EvolutionCall>)
        ensures
            final(self).ledgers() == old(self).ledgers(),
            final(self).calls() == old(self).calls().push(call@),
    {
        self.calls = Ghost(self.calls@.push(call@));
    }
}

impl EvolutionStore for EvolutionBook {
    open spec fn lawful(&self) -> bool {
        true
    }

    closed spec fn ledgers(&self) -> Ledgers {
        self.shelf@
    }

    closed spec fn calls(&self) -> Seq<EvolutionCall> {
        self.calls@
    }

    fn load(&mut self, scope: &HarnessScope) -> (r: Result<
        Option<EvolutionState>,
        EvolutionStoreError,
    >) {
        let r = self.shelf.load(scope);
        self.note(Ghost(EvolutionCall::Load(scope@.text(), loaded(r))));
        r
    }

    fn commit(&mut self, state: &EvolutionState, event: &RefinementEvent) -> (r: Result<
        EvolutionCommit,
        EvolutionStoreError,
    >) {
        let r = self.shelf.commit(state, event);
        self.note(Ghost(EvolutionCall::Commit(state@, event@, committed(r))));
        r
    }

    fn history(&mut self, scope: &HarnessScope, limit: usize) -> (r: Result<
        Vec<RefinementEvent>,
        EvolutionStoreError,
    >) {
        let r = self.shelf.history(scope, limit);
        self.note(Ghost(EvolutionCall::History(scope@.text(), limit, recalled(r))));
        r
    }

    fn event(&mut self, scope: &HarnessScope, event_id: &str) -> (r: Result<
        Option<RefinementEvent>,
        EvolutionStoreError,
    >) {
        let r = self.shelf.event(scope, event_id);
        self.note(Ghost(EvolutionCall::Event(scope@.text(), event_id@, looked_up(r))));
        r
    }
}

/// Every stored ledger stands at the revision of its last event, whose baselines follow each other
/// from zero on.
pub open spec fn ledger_sound(ledger: LedgerView) -> bool {
    &&& ledger.events.len() > 0
    &&& ledger.state.revision == ledger.events.len()
    &&& forall|i: int|
        0 <= i < ledger.events.len() ==> (#[trigger] ledger.events[i]).resulting_revision == i + 1
            && ledger.events[i].based_on_revision == i
}

/// Commits keep every ledger sound: history has no gaps, is only ever added to, and the state is
/// the one that the last event resulted in.
pub proof fn law_history_is_append_only(ledgers: Ledgers, state: StateView, event: EventView)
    requires
        forall|k: Seq<char>| #[trigger] ledgers.dom().contains(k) ==> ledger_sound(ledgers[k]),
        event.fault() is None,
    ensures
        ({
            let after = commit_on(ledgers, state, event).1;
            &&& forall|k: Seq<char>| #[trigger] after.dom().contains(k) ==> ledger_sound(after[k])
            &&& forall|k: Seq<char>|
                #[trigger] ledgers.dom().contains(k) ==> after.dom().contains(k)
                    && events_at(ledgers, k).len() <= events_at(after, k).len() && events_at(
                    after,
                    k,
                ).take(events_at(ledgers, k).len() as int) == events_at(ledgers, k)
        }),
{
    let scope = state.scope.text();
    let (answer, after) = commit_on(ledgers, state, event);
    let before = events_at(ledgers, scope);
    assert forall|k: Seq<char>| #[trigger] ledgers.dom().contains(k) implies after.dom().contains(k)
        && events_at(ledgers, k).len() <= events_at(after, k).len() && events_at(after, k).take(
        events_at(ledgers, k).len() as int,
    ) == events_at(ledgers, k) by {
        assert(events_at(after, k).take(events_at(ledgers, k).len() as int) =~= events_at(
            ledgers,
            k,
        ));
    }
    assert forall|k: Seq<char>| #[trigger] after.dom().contains(k) implies ledger_sound(after[k]) by {
        if answer == Ok::<EvolutionCommit, StoreFault>(EvolutionCommit::Committed) && k == scope {
            let ledger = after[k];
            assert(ledger.events == before.push(event));
            if ledgers.dom().contains(k) {
                assert(ledger_sound(ledgers[k]));
            }
            assert(before.len() == event.based_on_revision);
            assert(event.resulting_revision == event.based_on_revision + 1);
            assert forall|i: int| 0 <= i < ledger.events.len() implies (
            #[trigger] ledger.events[i]).resulting_revision == i + 1
                && ledger.events[i].based_on_revision == i by {
                if i < before.len() {
                    assert(ledger.events[i] == before[i]);
                }
            }
        } else {
            assert(ledgers.dom().contains(k));
        }
    }
}

/// A transition that can be written down is committed exactly where it builds on the revision that
/// is stored, nothing counting as zero, and its event is new. Then the scope holds the state, and
/// its history the event behind all others; every other scope stays as it was. Where another
/// revision is stored the answer names it. Whatever is not committed changes nothing.
pub proof fn law_commits_build_on_what_is_stored(
    ledgers: Ledgers,
    state: StateView,
    event: EventView,
)
    requires
        writing_fault(state, event) is None,
    ensures
        ({
            let scope = state.scope.text();
            let (answer, after) = commit_on(ledgers, state, event);
            let there = ledgers.dom().contains(scope);
            let fits = (there ==> ledgers[scope].state.revision == event.based_on_revision) && (
            !there ==> event.based_on_revision == 0);
            let new = there ==> (forall|i: int|
                0 <= i < ledgers[scope].events.len() ==> (
                #[trigger] ledgers[scope].events[i]).event_id != event.event_id);
            &&& (answer matches Ok(EvolutionCommit::Committed)) <==> fits && new
            &&& (answer matches Ok(EvolutionCommit::RevisionConflict { .. })) <==> !fits
            &&& answer matches Ok(EvolutionCommit::RevisionConflict { stored_revision }) ==> {
                &&& stored_revision is Some <==> there
                &&& there ==> stored_revision == Some(ledgers[scope].state.revision)
            }
            &&& answer matches Ok(EvolutionCommit::Committed) ==> {
                &&& after.dom() == ledgers.dom().insert(scope)
                &&& after[scope].state == state
                &&& there ==> after[scope].events == ledgers[scope].events.push(event)
                &&& !there ==> after[scope].events == seq![event]
                &&& forall|k: Seq<char>| k != scope ==> #[trigger] after[k] == ledgers[k]
            }
            &&& !(answer matches Ok(EvolutionCommit::Committed)) ==> after == ledgers
        }),
{
    let scope = state.scope.text();
    let events = events_at(ledgers, scope);
    if has_event(events, event.event_id) {
        let i = choose|i: int|
            0 <= i < events.len() && (#[trigger] events[i]).event_id == event.event_id;
        assert(ledgers[scope].events[i].event_id == event.event_id);
    }
    assert(Seq::<EventView>::empty().push(event) =~= seq![event]);
}

/// A history gives the events of its scope from the newest on, and no other: as many as are asked
/// for, or all where there are fewer. A lookup gives the event with the identity, where there is
/// one.
pub proof fn law_histories_give_the_newest_events(
    ledgers: Ledgers,
    scope: Seq<char>,
    limit: nat,
    id: Seq<char>,
)
    requires
        ledgers.dom().contains(scope),
    ensures
        ({
            let events = ledgers[scope].events;
            let given = history_on(ledgers, scope, limit);
            &&& given.len() <= limit
            &&& given.len() <= events.len()
            &&& given.len() == limit || given.len() == events.len()
            &&& forall|i: int|
                0 <= i < given.len() ==> #[trigger] given[i] == events[events.len() - 1 - i]
            &&& event_from(events, id, 0) is None <==> (forall|i: int|
                0 <= i < events.len() ==> (#[trigger] events[i]).event_id != id)
            &&& event_from(events, id, 0) matches Some(e) ==> e.event_id == id && events.contains(e)
        }),
{
    lemma_event_from(ledgers[scope].events, id, 0);
}

proof fn lemma_event_from(events: Seq<EventView>, id: Seq<char>, from: int)
    requires
        0 <= from,
    ensures
        event_from(events, id, from) is None <==> (forall|i: int|
            from <= i < events.len() ==> (#[trigger] events[i]).event_id != id),
        event_from(events, id, from) matches Some(e) ==> e.event_id == id && events.contains(e),
    decreases events.len() - from,
{
    if from < events.len() {
        if events[from].event_id == id {
            assert(events.contains(events[from]));
        } else {
            lemma_event_from(events, id, from + 1);
        }
    }
}

} // verus!
