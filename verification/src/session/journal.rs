//! The event journal of a session: numbered events, read from a cursor.

use crate::session::ledger::SessionLedger;
use crate::session::notice::{EventUpdate, UpdateView};
use crate::session::{fault, operation, require_resident, Error, Fault, SessionId, TurnOutcome};
use crate::text::{copy_option, option_view};
use vstd::prelude::*;

verus! {

/// One numbered event of a session.
#[derive(Debug, PartialEq, Eq)]
pub struct Event {
    pub session_id: SessionId,
    pub sequence: u64,
    pub turn_id: Option<String>,
    pub update: EventUpdate,
}

/// What an [`Event`] says.
pub struct EventView {
    pub session_id: Seq<char>,
    pub sequence: u64,
    pub turn_id: Option<Seq<char>>,
    pub update: UpdateView,
}

impl View for Event {
    type V = EventView;

    open spec fn view(&self) -> EventView {
        EventView {
            session_id: self.session_id@,
            sequence: self.sequence,
            turn_id: option_view(self.turn_id),
            update: self.update@,
        }
    }
}

impl Event {
    /// A second copy of the event.
    pub fn duplicate(&self) -> (r: Event)
        ensures
            r@ == self@,
    {
        Event {
            session_id: self.session_id.duplicate(),
            sequence: self.sequence,
            turn_id: copy_option(&self.turn_id),
            update: self.update.duplicate(),
        }
    }
}

/// What each event says.
pub open spec fn event_views(events: Seq<Event>) -> Seq<EventView> {
    Seq::new(events.len(), |i: int| events[i]@)
}

/// The events behind a cursor, in order.
pub open spec fn behind(events: Seq<EventView>, after: u64) -> Seq<EventView> {
    events.filter(|e: EventView| e.sequence > after)
}

/// What a cursor sees of a journal.
#[derive(Debug, PartialEq, Eq)]
pub struct JournalObservation {
    pub oldest_retained_sequence: u64,
    pub inclusive_end_sequence: u64,
    pub retained_count: u64,
    /// Events behind the cursor are no longer retained.
    pub truncated: bool,
    pub events: Vec<Event>,
}

/// What a [`JournalObservation`] says.
pub struct ObservationView {
    pub oldest_retained_sequence: u64,
    pub inclusive_end_sequence: u64,
    pub retained_count: u64,
    pub truncated: bool,
    pub events: Seq<EventView>,
}

impl View for JournalObservation {
    type V = ObservationView;

    open spec fn view(&self) -> ObservationView {
        ObservationView {
            oldest_retained_sequence: self.oldest_retained_sequence,
            inclusive_end_sequence: self.inclusive_end_sequence,
            retained_count: self.retained_count,
            truncated: self.truncated,
            events: event_views(self.events@),
        }
    }
}

/// The number of the oldest event that is retained; past the end when none is.
pub open spec fn oldest(retained: Seq<EventView>, end: u64) -> u64 {
    if retained.len() > 0 {
        retained[0].sequence
    } else {
        (end + 1) as u64
    }
}

/// What a cursor sees of a journal that ends at `end`.
pub open spec fn observed(retained: Seq<EventView>, end: u64, after: u64) -> Result<
    ObservationView,
    Fault,
> {
    if after > end {
        Err(Fault::Operation("event cursor is beyond the session sequence"@))
    } else {
        Ok(
            ObservationView {
                oldest_retained_sequence: oldest(retained, end),
                inclusive_end_sequence: end,
                retained_count: retained.len() as u64,
                truncated: after + 1 < oldest(retained, end),
                events: behind(retained, after),
            },
        )
    }
}

/// The events of a journal that is retained, if any.
pub open spec fn retained_views(retained: Option<&Vec<Event>>) -> Seq<EventView> {
    match retained {
        Some(events) => event_views(events@),
        None => Seq::empty(),
    }
}

/// Copies the events behind a cursor.
fn copy_behind(events: &Vec<Event>, after: u64) -> (r: Vec<Event>)
    ensures
        event_views(r@) == behind(event_views(events@), after),
{
    let ghost all = event_views(events@);
    let ghost keep = |e: EventView| e.sequence > after;
    let mut out: Vec<Event> = Vec::new();
    let mut i: usize = 0;
    proof {
        assert(all.take(0) =~= Seq::empty());
        reveal(Seq::filter);
        assert(event_views(out@) =~= Seq::empty());
    }
    while i < events.len()
        invariant
            i <= events@.len(),
            all == event_views(events@),
            keep == (|e: EventView| e.sequence > after),
            event_views(out@) == all.take(i as int).filter(keep),
        decreases events@.len() - i,
    {
        let ghost before = event_views(out@);
        proof {
            assert(all.take(i + 1).drop_last() =~= all.take(i as int));
            reveal(Seq::filter);
        }
        if events[i].sequence > after {
            out.push(events[i].duplicate());
            proof {
                assert(event_views(out@) =~= before.push(all[i as int]));
            }
        }
        i += 1;
    }
    proof {
        assert(all.take(all.len() as int) =~= all);
    }
    out
}

/// Observes a journal from a cursor. Without retained events the journal is an empty suffix that
/// begins past its end.
pub fn observe_journal_snapshot(
    retained: Option<&Vec<Event>>,
    inclusive_end_sequence: u64,
    after_sequence: u64,
) -> (r: Result<JournalObservation, Error>)
    requires
        inclusive_end_sequence < u64::MAX,
    ensures
        match observed(retained_views(retained), inclusive_end_sequence, after_sequence) {
            Ok(seen) => r is Ok && r->Ok_0@ == seen,
            Err(e) => fault(r) == Some(e),
        },
{
    if after_sequence > inclusive_end_sequence {
        return Err(operation("event cursor is beyond the session sequence"));
    }
    let mut oldest_retained: u64 = inclusive_end_sequence + 1;
    let mut count: u64 = 0;
    let mut events: Vec<Event> = Vec::new();
    match retained {
        Some(known) => {
            count = known.len() as u64;
            if known.len() > 0 {
                oldest_retained = known[0].sequence;
            }
            events = copy_behind(known, after_sequence);
        },
        None => {
            proof {
                reveal(Seq::filter);
                assert(event_views(events@) =~= behind(Seq::empty(), after_sequence));
            }
        },
    }
    Ok(
        JournalObservation {
            oldest_retained_sequence: oldest_retained,
            inclusive_end_sequence,
            retained_count: count,
            truncated: after_sequence + 1 < oldest_retained,
            events,
        },
    )
}

/// The events behind a cursor, unless some of them are gone.
pub open spec fn replayed(retained: Seq<EventView>, end: u64, after: u64) -> Result<
    Seq<EventView>,
    Fault,
> {
    match observed(retained, end, after) {
        Err(e) => Err(e),
        Ok(seen) => if seen.truncated {
            Err(
                Fault::EventGap {
                    requested: after,
                    oldest_available: seen.oldest_retained_sequence,
                    newest: end,
                },
            )
        } else {
            Ok(seen.events)
        },
    }
}

/// The journal of one session. It keeps every event that it numbered: they are numbered from one
/// on without gaps, and the last one carries the number of the journal's end.
pub struct EventJournal {
    session_id: SessionId,
    sequence: u64,
    retained: Vec<Event>,
}

/// Whether events are numbered without gaps up to `end`.
pub open spec fn contiguous(events: Seq<EventView>, end: u64) -> bool {
    &&& events.len() <= end
    &&& forall|i: int|
        0 <= i < events.len() ==> (#[trigger] events[i]).sequence == end - events.len() + 1 + i
}

/// The events of a journal when the end of a turn was announced behind them.
pub open spec fn announced(
    events: Seq<EventView>,
    session: Seq<char>,
    end: u64,
    turn_id: Seq<char>,
    outcome: TurnOutcome,
) -> Seq<EventView> {
    events.push(
        EventView {
            session_id: session,
            sequence: (end + 1) as u64,
            turn_id: Some(turn_id),
            update: UpdateView::TurnFinished(outcome),
        },
    )
}

impl EventJournal {
    pub closed spec fn session(&self) -> Seq<char> {
        self.session_id@
    }

    /// The number of the last event.
    pub closed spec fn end(&self) -> u64 {
        self.sequence
    }

    /// The events that are retained.
    pub closed spec fn events(&self) -> Seq<EventView> {
        event_views(self.retained@)
    }

    #[verifier::type_invariant]
    pub closed spec fn ordered(&self) -> bool {
        &&& contiguous(event_views(self.retained@), self.sequence)
        &&& self.retained@.len() == self.sequence
    }

    /// An empty journal.
    pub fn new(session_id: &SessionId) -> (r: EventJournal)
        ensures
            r.session() == session_id@,
            r.end() == 0,
            r.events() == Seq::<EventView>::empty(),
    {
        let r = EventJournal {
            session_id: session_id.duplicate(),
            sequence: 0,
            retained: Vec::new(),
        };
        proof {
            assert(r.events() =~= Seq::<EventView>::empty());
        }
        r
    }

    /// The number of the last event.
    pub fn inclusive_end_sequence(&self) -> (r: u64)
        ensures
            r == self.end(),
            self.events().len() == self.end(),
            contiguous(self.events(), self.end()),
    {
        proof {
            use_type_invariant(self);
        }
        self.sequence
    }

    /// Adds an event under the next number and gives a copy of it to be sent.
    pub fn emit(&mut self, update: EventUpdate, turn_id: Option<String>) -> (r: Event)
        requires
            old(self).end() < u64::MAX,
        ensures
            r@ == (EventView {
                session_id: old(self).session(),
                sequence: (old(self).end() + 1) as u64,
                turn_id: option_view(turn_id),
                update: update@,
            }),
            final(self).session() == old(self).session(),
            final(self).end() == old(self).end() + 1,
            final(self).events() == old(self).events().push(r@),
            final(self).events().len() == final(self).end(),
    {
        proof {
            use_type_invariant(&*self);
        }
        let ghost before = self.events();
        let mut moved = EventJournal {
            session_id: self.session_id.duplicate(),
            sequence: 0,
            retained: Vec::new(),
        };
        core::mem::swap(self, &mut moved);
        let EventJournal { session_id, sequence, retained } = moved;
        let mut retained = retained;
        let next: u64 = sequence + 1;
        let event = Event { session_id: session_id.duplicate(), sequence: next, turn_id, update };
        let copy = event.duplicate();
        retained.push(event);
        proof {
            assert(event_views(retained@) =~= before.push(copy@));
        }
        *self = EventJournal { session_id, sequence: next, retained };
        copy
    }

    /// Announces how a turn ended, and gives a copy of that event to be sent.
    pub fn announce(&mut self, outcome: TurnOutcome, turn_id: &str) -> (r: Event)
        requires
            old(self).end() < u64::MAX,
        ensures
            r@ == final(self).events().last(),
            r@.sequence == final(self).end(),
            final(self).session() == old(self).session(),
            final(self).end() == old(self).end() + 1,
            final(self).events() == announced(
                old(self).events(),
                old(self).session(),
                old(self).end(),
                turn_id@,
                outcome,
            ),
    {
        self.emit(EventUpdate::TurnFinished(outcome), Some(turn_id.to_owned()))
    }

    /// Adds what the native session reports, under the turn that is running. What a session
    /// repeats while it is being loaded is no news.
    pub fn relay(&mut self, update: EventUpdate, replaying: bool, turn_id: Option<String>) -> (r:
        Option<Event>)
        requires
            old(self).end() < u64::MAX,
        ensures
            replaying ==> r is None && final(self).end() == old(self).end() && final(self).events()
                == old(self).events(),
            !replaying ==> r is Some && r->Some_0@ == (EventView {
                session_id: old(self).session(),
                sequence: (old(self).end() + 1) as u64,
                turn_id: option_view(turn_id),
                update: update@,
            }) && final(self).end() == old(self).end() + 1 && final(self).events() == old(
                self,
            ).events().push(r->Some_0@),
            final(self).session() == old(self).session(),
    {
        if replaying {
            None
        } else {
            Some(self.emit(update, turn_id))
        }
    }

    /// What a cursor sees of the journal.
    pub fn observe_journal(&self, after_sequence: u64) -> (r: Result<JournalObservation, Error>)
        requires
            self.end() < u64::MAX,
        ensures
            match observed(self.events(), self.end(), after_sequence) {
                Ok(seen) => r is Ok && r->Ok_0@ == seen,
                Err(e) => fault(r) == Some(e),
            },
            contiguous(self.events(), self.end()),
    {
        proof {
            use_type_invariant(&*self);
        }
        observe_journal_snapshot(Some(&self.retained), self.sequence, after_sequence)
    }

    /// The events behind a cursor of a loaded session. A cursor whose events are gone is told
    /// where the journal begins.
    pub fn events_after(&self, resident: bool, sequence: u64) -> (r: Result<Vec<Event>, Error>)
        requires
            self.end() < u64::MAX,
        ensures
            if !resident {
                fault(r) == Some(Fault::Operation("session is not resident"@))
            } else {
                match replayed(self.events(), self.end(), sequence) {
                    Ok(events) => r is Ok && event_views(r->Ok_0@) == events,
                    Err(e) => fault(r) == Some(e),
                }
            },
            self.events().len() == self.end(),
            resident && sequence <= self.end() ==> r is Ok && event_views(r->Ok_0@)
                == self.events().skip(sequence as int),
    {
        proof {
            use_type_invariant(self);
            if sequence <= self.end() {
                law_cursors_within_the_sequence_meet_no_gap(self.events(), self.end(), sequence);
            }
        }
        require_resident(resident)?;
        let seen = self.observe_journal(sequence)?;
        if seen.truncated {
            return Err(
                Error::EventGap {
                    requested: sequence,
                    oldest_available: seen.oldest_retained_sequence,
                    newest: seen.inclusive_end_sequence,
                },
            );
        }
        Ok(seen.events)
    }
}

/// What a cursor sees of a session's journal, when the session has one.
pub fn observe_known_journal(journal: Option<&EventJournal>, after_sequence: u64) -> (r: Result<
    JournalObservation,
    Error,
>)
    requires
        journal matches Some(j) ==> j.end() < u64::MAX,
    ensures
        match journal {
            None => fault(r) == Some(Fault::Operation("unknown session event journal"@)),
            Some(j) => match observed(j.events(), j.end(), after_sequence) {
                Ok(seen) => r is Ok && r->Ok_0@ == seen,
                Err(e) => fault(r) == Some(e),
            },
        },
{
    match journal {
        None => Err(operation("unknown session event journal")),
        Some(known) => known.observe_journal(after_sequence),
    }
}

/// What a session was opened with.
#[derive(Debug, PartialEq, Eq)]
pub struct ResidentBinding {
    pub session_id: SessionId,
    pub cwd: String,
    pub model: String,
    pub reasoning: Option<String>,
    pub harness_digest: Option<String>,
}

/// What a host needs to take a session up again: its binding, the events behind a cursor and the
/// turns.
#[derive(Debug, PartialEq, Eq)]
pub struct SessionReplayProbe {
    pub binding: ResidentBinding,
    pub requested_after_sequence: u64,
    pub oldest_retained_sequence: u64,
    pub inclusive_end_sequence: u64,
    pub retained_count: u64,
    pub truncated: bool,
    pub events: Vec<Event>,
    pub ledger: SessionLedger,
}

impl SessionReplayProbe {
    /// What the probe saw of the journal.
    pub open spec fn seen(self) -> ObservationView {
        ObservationView {
            oldest_retained_sequence: self.oldest_retained_sequence,
            inclusive_end_sequence: self.inclusive_end_sequence,
            retained_count: self.retained_count,
            truncated: self.truncated,
            events: event_views(self.events@),
        }
    }
}

/// Puts together what a host needs to take a loaded session up again.
pub fn probe_session_replay(
    resident: bool,
    binding: Option<ResidentBinding>,
    journal: Option<&EventJournal>,
    after_sequence: u64,
    ledger: SessionLedger,
) -> (r: Result<SessionReplayProbe, Error>)
    requires
        journal matches Some(j) ==> j.end() < u64::MAX,
    ensures
        if !resident {
            fault(r) == Some(Fault::Operation("session is not resident"@))
        } else if binding is None {
            fault(r) == Some(Fault::Operation("session binding is unavailable"@))
        } else {
            match journal {
                None => fault(r) == Some(Fault::Operation("unknown session event journal"@)),
                Some(j) => match observed(j.events(), j.end(), after_sequence) {
                    Ok(seen) => r matches Ok(probe) && probe.binding == binding->Some_0
                        && probe.requested_after_sequence == after_sequence && probe.seen() == seen
                        && probe.ledger == ledger,
                    Err(e) => fault(r) == Some(e),
                },
            }
        },
{
    require_resident(resident)?;
    let binding = match binding {
        Some(binding) => binding,
        None => {
            return Err(operation("session binding is unavailable"));
        },
    };
    let seen = observe_known_journal(journal, after_sequence)?;
    Ok(
        SessionReplayProbe {
            binding,
            requested_after_sequence: after_sequence,
            oldest_retained_sequence: seen.oldest_retained_sequence,
            inclusive_end_sequence: seen.inclusive_end_sequence,
            retained_count: seen.retained_count,
            truncated: seen.truncated,
            events: seen.events,
            ledger,
        },
    )
}

/// A cursor that is not refused gets every event behind it: the numbers that follow the cursor,
/// one after the other, up to the end of the journal.
pub proof fn law_replay_is_complete(retained: Seq<EventView>, end: u64, after: u64)
    requires
        contiguous(retained, end),
        end < u64::MAX,
    ensures
        replayed(retained, end, after) matches Ok(events) ==> {
            &&& events.len() == end - after
            &&& forall|i: int|
                0 <= i < events.len() ==> (#[trigger] events[i]).sequence == after + 1 + i
        },
        replayed(retained, end, after) is Ok <==> end - retained.len() <= after <= end,
{
    if end - retained.len() <= after <= end {
        let cut = (after - (end - retained.len())) as int;
        lemma_behind(retained, end, after, retained.len() as int);
        assert(retained.take(retained.len() as int) =~= retained);
        assert(behind(retained, after) =~= retained.subrange(cut, retained.len() as int));
    }
}

/// In a journal that keeps every event it numbered, a cursor within the sequence never meets a gap:
/// it is given every event behind it, in order.
pub proof fn law_cursors_within_the_sequence_meet_no_gap(
    events: Seq<EventView>,
    end: u64,
    after: u64,
)
    requires
        contiguous(events, end),
        events.len() == end,
        end < u64::MAX,
        after <= end,
    ensures
        replayed(events, end, after) == Ok::<Seq<EventView>, Fault>(events.skip(after as int)),
        observed(events, end, after) matches Ok(seen) && !seen.truncated,
{
    lemma_behind(events, end, after, events.len() as int);
    assert(events.take(events.len() as int) =~= events);
    assert(events.subrange(after as int, end as int) =~= events.skip(after as int));
}

proof fn lemma_behind(retained: Seq<EventView>, end: u64, after: u64, n: int)
    requires
        contiguous(retained, end),
        end - retained.len() <= after <= end,
        0 <= n <= retained.len(),
    ensures
        behind(retained.take(n), after) =~= retained.subrange(
            if n < after - (end - retained.len()) {
                n
            } else {
                (after - (end - retained.len())) as int
            },
            n,
        ),
    decreases n,
{
    reveal(Seq::filter);
    if n > 0 {
        lemma_behind(retained, end, after, n - 1);
        assert(retained.take(n).drop_last() =~= retained.take(n - 1));
        assert(retained.take(n).last() == retained[n - 1]);
    }
}

} // verus!
