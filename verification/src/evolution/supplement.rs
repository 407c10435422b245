//! The marked supplement section: rendering a ledger into it, stripping it from a prompt, and
//! deriving the prompt that carries the current ledger.

use crate::evolution::entry::{EntryView, HarnessEntry, HarnessEntryKind, SkillView};
use crate::evolution::event::{evidence_views, EventView, RefinementEvent};
use crate::evolution::state::{EvolutionState, StateView};
use crate::evolution::{
    refusal, EvolutionError, Refusal, HARNESS_SUPPLEMENT_BEGIN, HARNESS_SUPPLEMENT_END,
    MAX_HARNESS_EVIDENCE_REFS, MAX_RENDERED_REFINEMENT_HISTORY,
};
use crate::harness::snapshot::{
    content_address, snapshot_prompt_fault, HarnessSnapshot, SnapshotView,
};
use crate::harness::{
    EvidenceView, HarnessEvidenceKind, HarnessEvidenceRef, HarnessRefinementPatch, PatchView,
};
use crate::text::{
    chars_of, contains_text, decimal, find_from, holds_text, is_blank, occurs_at, push_decimal,
    same_text, text_of, trim_end, trim_end_text, trim_start, trim_start_text,
};
use crate::text_map::{sorted_keys, TextMap};
use vstd::prelude::*;

verus! {

/// The words that open a rendered section.
pub const SUPPLEMENT_INTRODUCTION: &'static str =
    "\n# Continual Harness State\nThis supplement was produced by validated refinements of earlier work. Follow the prompt notes, treat memories as established facts, and use skills and subagents through their stated contracts.\n";

/// The arguments of a skill as lines.
pub open spec fn argument_lines(
    keys: Seq<Seq<char>>,
    arguments: Map<Seq<char>, Seq<char>>,
) -> Seq<char>
    decreases keys.len(),
{
    if keys.len() == 0 {
        Seq::empty()
    } else {
        argument_lines(keys.drop_last(), arguments) + ("- `"@ + keys.last() + "`: "@
            + arguments[keys.last()] + "\n"@)
    }
}

/// A skill contract as lines.
pub open spec fn skill_lines(skill: SkillView) -> Seq<char> {
    "Invocation: `"@ + skill.invocation + "`\n"@ + argument_lines(
        sorted_keys(skill.arguments.dom()),
        skill.arguments,
    )
}

/// An entry as a block of lines; `scope` names the ledger that it comes from.
pub open spec fn entry_block(entry: EntryView, scope: Seq<char>) -> Seq<char> {
    "\n### "@ + entry.title + " ("@ + scope + " · "@ + entry.id + " · v"@ + decimal(
        entry.version as nat,
    ) + ")\n"@ + entry.content + "\n"@ + match entry.skill {
        Some(skill) => skill_lines(skill),
        None => Seq::empty(),
    }
}

/// An entry and whether it comes from the session's ledger.
pub struct MergedView {
    pub entry: EntryView,
    pub session: bool,
}

/// The name of the ledger that an entry comes from.
pub open spec fn origin_label(session: bool) -> Seq<char> {
    if session {
        "session"@
    } else {
        "global"@
    }
}

/// The entries of a scope pair: session entries overlay global entries of the same identifier.
pub open spec fn merged_entries(
    global: Map<Seq<char>, EntryView>,
    session: Map<Seq<char>, EntryView>,
) -> Map<Seq<char>, MergedView> {
    global.map_values(|e: EntryView| MergedView { entry: e, session: false }).union_prefer_right(
        session.map_values(|e: EntryView| MergedView { entry: e, session: true }),
    )
}

/// The blocks of the entries of one kind, in the order of `keys`.
pub open spec fn kind_blocks(
    kind: HarnessEntryKind,
    keys: Seq<Seq<char>>,
    merged: Map<Seq<char>, MergedView>,
) -> Seq<char>
    decreases keys.len(),
{
    if keys.len() == 0 {
        Seq::empty()
    } else {
        let m = merged[keys.last()];
        kind_blocks(kind, keys.drop_last(), merged) + if m.entry.kind == kind {
            entry_block(m.entry, origin_label(m.session))
        } else {
            Seq::empty()
        }
    }
}

/// Whether some entry has the kind.
pub open spec fn has_kind(
    kind: HarnessEntryKind,
    keys: Seq<Seq<char>>,
    merged: Map<Seq<char>, MergedView>,
) -> bool {
    exists|i: int| 0 <= i < keys.len() && merged[#[trigger] keys[i]].entry.kind == kind
}

/// The section of one kind, empty where no entry has it.
pub open spec fn kind_section(
    kind: HarnessEntryKind,
    keys: Seq<Seq<char>>,
    merged: Map<Seq<char>, MergedView>,
) -> Seq<char> {
    if has_kind(kind, keys, merged) {
        "\n## "@ + kind.heading() + "\n"@ + kind_blocks(kind, keys, merged)
    } else {
        Seq::empty()
    }
}

/// Events with one more put behind all that are not older.
pub open spec fn insert_newest_first(events: Seq<EventView>, e: EventView) -> Seq<EventView>
    decreases events.len(),
{
    if events.len() == 0 {
        seq![e]
    } else if events[0].resulting_revision >= e.resulting_revision {
        seq![events[0]] + insert_newest_first(events.drop_first(), e)
    } else {
        seq![e] + events
    }
}

/// Events from the newest revision to the oldest; equal revisions keep their order.
pub open spec fn newest_first(events: Seq<EventView>) -> Seq<EventView>
    decreases events.len(),
{
    if events.len() == 0 {
        Seq::empty()
    } else {
        insert_newest_first(newest_first(events.drop_last()), events.last())
    }
}

/// The newest events that a section shows.
pub open spec fn shown_history(events: Seq<EventView>) -> Seq<EventView> {
    let all = newest_first(events);
    if all.len() <= MAX_RENDERED_REFINEMENT_HISTORY {
        all
    } else {
        all.take(MAX_RENDERED_REFINEMENT_HISTORY as int)
    }
}

/// One event as a line.
pub open spec fn history_line(e: EventView) -> Seq<char> {
    "- ["@ + e.scope.label() + " rev "@ + decimal(e.resulting_revision as nat) + "] "@ + e.summary
        + " (applied "@ + decimal(e.applied.len()) + ", rejected "@ + decimal(e.rejected.len())
        + ")\n"@
}

/// Events as lines.
pub open spec fn history_lines(events: Seq<EventView>) -> Seq<char>
    decreases events.len(),
{
    if events.len() == 0 {
        Seq::empty()
    } else {
        history_lines(events.drop_last()) + history_line(events.last())
    }
}

/// The history part of a section.
pub open spec fn history_section(events: Seq<EventView>) -> Seq<char> {
    let shown = shown_history(events);
    if shown.len() == 0 {
        Seq::empty()
    } else {
        "\n## Recent Refinements\n"@ + history_lines(shown)
    }
}

/// The whole section for a scope pair.
pub open spec fn supplement_text(
    merged: Map<Seq<char>, MergedView>,
    events: Seq<EventView>,
) -> Seq<char> {
    let keys = sorted_keys(merged.dom());
    HARNESS_SUPPLEMENT_BEGIN@ + SUPPLEMENT_INTRODUCTION@ + kind_section(
        HarnessEntryKind::Prompt,
        keys,
        merged,
    ) + kind_section(HarnessEntryKind::Memory, keys, merged) + kind_section(
        HarnessEntryKind::Skill,
        keys,
        merged,
    ) + kind_section(HarnessEntryKind::Subagent, keys, merged) + history_section(events)
        + HARNESS_SUPPLEMENT_END@
}

/// What is wrong with the ledger given for one side of a scope pair.
pub open spec fn side_fault(state: Option<StateView>, global: bool) -> Option<Refusal> {
    match state {
        None => None,
        Some(s) => match s.fault() {
            Some(e) => Some(e),
            None => if (s.scope is Global) != global {
                Some(
                    Refusal::ScopeMismatch {
                        expected: if global {
                            "global"@
                        } else {
                            "session"@
                        },
                        actual: s.scope.text(),
                    },
                )
            } else {
                None
            },
        },
    }
}

/// The entries of an optional ledger.
pub open spec fn side_entries(state: Option<StateView>) -> Map<Seq<char>, EntryView> {
    match state {
        Some(s) => s.entries,
        None => Map::empty(),
    }
}

/// What rendering a scope pair gives.
pub open spec fn render_outcome(
    global: Option<StateView>,
    session: Option<StateView>,
    events: Seq<EventView>,
) -> Result<Option<Seq<char>>, Refusal> {
    match crate::evolution::first_of(side_fault(global, true), side_fault(session, false)) {
        Some(e) => Err(e),
        None => {
            let merged = merged_entries(side_entries(global), side_entries(session));
            if sorted_keys(merged.dom()).len() == 0 {
                Ok(None)
            } else {
                Ok(Some(supplement_text(merged, events)))
            }
        },
    }
}

/// What an optional ledger says.
pub open spec fn state_view(state: Option<&EvolutionState>) -> Option<StateView> {
    match state {
        Some(s) => Some(s@),
        None => None,
    }
}

/// What each event says.
pub open spec fn event_views(events: Seq<RefinementEvent>) -> Seq<EventView> {
    Seq::new(events.len(), |i: int| events[i]@)
}

/// What each borrowed event says.
pub open spec fn borrowed_views(events: Seq<&RefinementEvent>) -> Seq<EventView> {
    Seq::new(events.len(), |i: int| events[i]@)
}

/// One event as a line.
pub fn event_line(e: &RefinementEvent) -> (r: String)
    ensures
        r@ == history_line(e@),
{
    let mut out = "- [".to_owned();
    out.append(e.scope.label());
    out.append(" rev ");
    push_decimal(&mut out, e.resulting_revision);
    out.append("] ");
    out.append(e.summary.as_str());
    out.append(" (applied ");
    push_decimal(&mut out, e.applied.len() as u64);
    out.append(", rejected ");
    push_decimal(&mut out, e.rejected.len() as u64);
    out.append(")\n");
    out
}

proof fn lemma_insert_behind(events: Seq<EventView>, e: EventView, p: int)
    requires
        0 <= p <= events.len(),
        forall|j: int|
            0 <= j < p ==> (#[trigger] events[j]).resulting_revision >= e.resulting_revision,
    ensures
        insert_newest_first(events, e) == events.take(p) + insert_newest_first(events.skip(p), e),
    decreases p,
{
    if p == 0 {
        assert(events.skip(0) =~= events);
        assert(insert_newest_first(events, e) =~= events.take(0) + insert_newest_first(events, e));
    } else {
        let rest = events.drop_first();
        assert(events[0].resulting_revision >= e.resulting_revision);
        assert forall|j: int| 0 <= j < p - 1 implies (#[trigger] rest[j]).resulting_revision
            >= e.resulting_revision by {
            assert(rest[j] == events[j + 1]);
        }
        lemma_insert_behind(rest, e, p - 1);
        assert(rest.skip(p - 1) =~= events.skip(p));
        assert(seq![events[0]] + (rest.take(p - 1) + insert_newest_first(events.skip(p), e))
            =~= events.take(p) + insert_newest_first(events.skip(p), e));
    }
}

/// The events from the newest revision to the oldest.
fn sort_newest_first<'a>(events: &'a Vec<RefinementEvent>) -> (r: Vec<&'a RefinementEvent>)
    ensures
        borrowed_views(r@) == newest_first(event_views(events@)),
{
    let ghost all = event_views(events@);
    let mut out: Vec<&'a RefinementEvent> = Vec::new();
    let mut i: usize = 0;
    proof {
        assert(all.take(0) =~= Seq::empty());
        assert(borrowed_views(out@) =~= Seq::empty());
    }
    while i < events.len()
        invariant
            i <= events@.len(),
            all == event_views(events@),
            borrowed_views(out@) == newest_first(all.take(i as int)),
        decreases events@.len() - i,
    {
        let e: &'a RefinementEvent = &events[i];
        let ghost before = borrowed_views(out@);
        let mut p: usize = 0;
        while p < out.len() && out[p].resulting_revision >= e.resulting_revision
            invariant
                p <= out@.len(),
                before == borrowed_views(out@),
                forall|j: int|
                    0 <= j < p ==> (#[trigger] before[j]).resulting_revision
                        >= e@.resulting_revision,
            decreases out@.len() - p,
        {
            assert(before[p as int] == out@[p as int]@);
            p += 1;
        }
        proof {
            lemma_insert_behind(before, e@, p as int);
            let tail = before.skip(p as int);
            if p < before.len() {
                assert(tail[0] == out@[p as int]@);
                assert(insert_newest_first(tail, e@) == seq![e@] + tail);
            } else {
                assert(insert_newest_first(tail, e@) =~= seq![e@] + tail);
            }
        }
        out.insert(p, e);
        proof {
            assert(borrowed_views(out@) =~= before.take(p as int) + (seq![e@] + before.skip(
                p as int,
            )));
            assert(all.take(i + 1).drop_last() =~= all.take(i as int));
            assert(all.take(i + 1).last() == e@);
        }
        i += 1;
    }
    proof {
        assert(all.take(all.len() as int) =~= all);
    }
    out
}

/// History is shown from the newest revision to the oldest.
pub proof fn law_history_is_newest_first(events: Seq<EventView>)
    ensures
        newest_first(events).len() == events.len(),
        newest_first(events).to_multiset() == events.to_multiset(),
        forall|i: int, j: int|
            0 <= i < j < newest_first(events).len() ==> (#[trigger] newest_first(
                events,
            )[i]).resulting_revision >= (#[trigger] newest_first(events)[j]).resulting_revision,
    decreases events.len(),
{
    broadcast use vstd::seq_lib::group_to_multiset_ensures;

    if events.len() > 0 {
        law_history_is_newest_first(events.drop_last());
        lemma_insert_newest_first(newest_first(events.drop_last()), events.last());
        assert(events =~= events.drop_last().push(events.last()));
    } else {
        assert(events =~= Seq::empty());
    }
}

proof fn lemma_insert_newest_first(events: Seq<EventView>, e: EventView)
    requires
        forall|i: int, j: int|
            0 <= i < j < events.len() ==> (#[trigger] events[i]).resulting_revision >= (
            #[trigger] events[j]).resulting_revision,
    ensures
        insert_newest_first(events, e).len() == events.len() + 1,
        insert_newest_first(events, e).to_multiset() == events.to_multiset().insert(e),
        forall|i: int|
            0 <= i < insert_newest_first(events, e).len() ==> (#[trigger] insert_newest_first(
                events,
                e,
            )[i]) == e || events.contains(insert_newest_first(events, e)[i]),
        forall|i: int, j: int|
            0 <= i < j < insert_newest_first(events, e).len() ==> (#[trigger] insert_newest_first(
                events,
                e,
            )[i]).resulting_revision >= (#[trigger] insert_newest_first(
                events,
                e,
            )[j]).resulting_revision,
    decreases events.len(),
{
    broadcast use vstd::seq_lib::group_to_multiset_ensures;

    let out = insert_newest_first(events, e);
    if events.len() == 0 {
        assert(out =~= events.push(e));
    } else if events[0].resulting_revision >= e.resulting_revision {
        let rest = events.drop_first();
        assert forall|i: int, j: int| 0 <= i < j < rest.len() implies (
        #[trigger] rest[i]).resulting_revision >= (#[trigger] rest[j]).resulting_revision by {
            assert(rest[i] == events[i + 1]);
            assert(rest[j] == events[j + 1]);
        }
        lemma_insert_newest_first(rest, e);
        let tail = insert_newest_first(rest, e);
        assert(events =~= seq![events[0]] + rest);
        vstd::seq_lib::lemma_multiset_commutative(seq![events[0]], rest);
        vstd::seq_lib::lemma_multiset_commutative(seq![events[0]], tail);
        assert(out.to_multiset() =~= events.to_multiset().insert(e));
        assert forall|i: int| 0 <= i < out.len() implies (#[trigger] out[i]) == e
            || events.contains(out[i]) by {
            if i == 0 {
                assert(events[0] == out[0]);
            } else {
                assert(out[i] == tail[i - 1]);
                if tail[i - 1] != e {
                    let k = choose|k: int| 0 <= k < rest.len() && rest[k] == tail[i - 1];
                    assert(events[k + 1] == tail[i - 1]);
                }
            }
        }
        assert forall|i: int, j: int| 0 <= i < j < out.len() implies (
        #[trigger] out[i]).resulting_revision >= (#[trigger] out[j]).resulting_revision by {
            assert(out[j] == tail[j - 1]);
            if i > 0 {
                assert(out[i] == tail[i - 1]);
            } else if tail[j - 1] != e {
                let k = choose|k: int| 0 <= k < rest.len() && rest[k] == tail[j - 1];
                assert(events[k + 1] == tail[j - 1]);
            }
        }
    } else {
        vstd::seq_lib::lemma_multiset_commutative(seq![e], events);
        assert(out.to_multiset() =~= events.to_multiset().insert(e)) by {
            assert(seq![e] =~= Seq::<EventView>::empty().push(e));
        }
        assert forall|i: int| 0 <= i < out.len() implies (#[trigger] out[i]) == e
            || events.contains(out[i]) by {
            if i > 0 {
                assert(events[i - 1] == out[i]);
            }
        }
        assert forall|i: int, j: int| 0 <= i < j < out.len() implies (
        #[trigger] out[i]).resulting_revision >= (#[trigger] out[j]).resulting_revision by {
            assert(out[j] == events[j - 1]);
            if i > 0 {
                assert(out[i] == events[i - 1]);
            } else if j > 1 {
                assert(events[0].resulting_revision >= events[j - 1].resulting_revision);
            }
        }
    }
}

/// A skill contract as lines.
fn render_skill(skill: &crate::evolution::entry::HarnessSkillContract) -> (r: String)
    ensures
        r@ == skill_lines(skill@),
{
    let mut out = "Invocation: `".to_owned();
    out.append(skill.invocation.as_str());
    out.append("`\n");
    let ghost head = out@;
    let n: usize = skill.arguments.len();
    let ghost keys = skill.arguments.keys();
    proof {
        assert(skill@.arguments.dom() =~= skill.arguments@.dom());
        assert(keys.take(0) =~= Seq::empty());
        assert(head + Seq::<char>::empty() =~= head);
    }
    let mut i: usize = 0;
    while i < n
        invariant
            i <= n,
            n == keys.len(),
            keys == skill.arguments.keys(),
            out@ == head + argument_lines(keys.take(i as int), skill@.arguments),
        decreases n - i,
    {
        let name = skill.arguments.key_at(i);
        let doc = skill.arguments.value_at(i);
        let ghost before = out@;
        out.append("- `");
        out.append(name);
        out.append("`: ");
        out.append(doc.as_str());
        out.append("\n");
        proof {
            assert(keys.take(i + 1).drop_last() =~= keys.take(i as int));
            assert(keys.take(i + 1).last() == name@);
            assert(skill@.arguments[name@] == doc@);
            assert(out@ =~= head + argument_lines(keys.take(i + 1), skill@.arguments));
        }
        i += 1;
    }
    proof {
        assert(keys.take(n as int) =~= keys);
    }
    out
}

/// An entry as a block of lines.
fn render_entry(entry: &HarnessEntry, scope: &str) -> (r: String)
    ensures
        r@ == entry_block(entry@, scope@),
{
    let mut out = "\n### ".to_owned();
    out.append(entry.title.as_str());
    out.append(" (");
    out.append(scope);
    out.append(" · ");
    out.append(entry.id.as_str());
    out.append(" · v");
    push_decimal(&mut out, entry.version);
    out.append(")\n");
    out.append(entry.content.as_str());
    out.append("\n");
    match &entry.skill {
        Some(skill) => {
            let lines = render_skill(skill);
            out.append(lines.as_str());
        },
        None => {
            proof {
                assert(out@ + Seq::<char>::empty() =~= out@);
            }
        },
    }
    out
}

/// An entry together with the ledger that it comes from.
pub struct Merged<'a> {
    pub entry: &'a HarnessEntry,
    pub session: bool,
}

impl<'a> View for Merged<'a> {
    type V = MergedView;

    open spec fn view(&self) -> MergedView {
        MergedView { entry: self.entry@, session: self.session }
    }
}

/// What the merged entries say.
pub open spec fn merged_views<'a>(m: Map<Seq<char>, Merged<'a>>) -> Map<Seq<char>, MergedView> {
    m.map_values(|e: Merged<'a>| e@)
}

/// Files every entry of a ledger under its identifier, in place of what was there.
fn overlay<'a>(merged: &mut TextMap<Merged<'a>>, state: &'a EvolutionState, session: bool)
    ensures
        merged_views(final(merged)@) == merged_views(old(merged)@).union_prefer_right(
            state@.entries.map_values(|e: EntryView| MergedView { entry: e, session }),
        ),
{
    let n: usize = state.entries.len();
    let ghost keys = state.entries.keys();
    let ghost start = merged_views(merged@);
    let ghost added = state@.entries.map_values(|e: EntryView| MergedView { entry: e, session });
    proof {
        assert(state@.entries.dom() =~= state.entries@.dom());
        assert(added.dom() =~= state.entries@.dom());
    }
    let mut i: usize = 0;
    while i < n
        invariant
            i <= n,
            n == keys.len(),
            keys == state.entries.keys(),
            added == state@.entries.map_values(|e: EntryView| MergedView { entry: e, session }),
            added.dom() == state.entries@.dom(),
            forall|k: Seq<char>|
                #[trigger] merged_views(merged@).dom().contains(k) <==> start.dom().contains(k)
                    || exists|j: int| 0 <= j < i && #[trigger] keys[j] == k,
            forall|k: Seq<char>|
                #[trigger] merged_views(merged@).dom().contains(k) ==> merged_views(merged@)[k]
                    == (if exists|j: int| 0 <= j < i && #[trigger] keys[j] == k {
                    added[k]
                } else {
                    start[k]
                }),
        decreases n - i,
    {
        let key = state.entries.key_at(i);
        let entry: &'a HarnessEntry = state.entries.value_at(i);
        let ghost before = merged_views(merged@);
        merged.insert(key, Merged { entry, session });
        proof {
            let now = merged_views(merged@);
            assert(now =~= before.insert(key@, MergedView { entry: entry@, session }));
            assert(added[key@] == (MergedView { entry: entry@, session }));
            assert forall|k: Seq<char>| #[trigger] now.dom().contains(k) <==> start.dom().contains(k)
                || exists|j: int| 0 <= j < i + 1 && #[trigger] keys[j] == k by {
                if now.dom().contains(k) {
                    if k == key@ {
                        assert(keys[i as int] == k);
                    } else {
                        assert(before.dom().contains(k));
                    }
                }
                if start.dom().contains(k) {
                    assert(before.dom().contains(k));
                }
                if exists|j: int| 0 <= j < i + 1 && #[trigger] keys[j] == k {
                    let j = choose|j: int| 0 <= j < i + 1 && #[trigger] keys[j] == k;
                    if j < i {
                        assert(before.dom().contains(k));
                    }
                }
            }
            assert forall|k: Seq<char>| #[trigger] now.dom().contains(k) implies now[k] == (
            if exists|j: int| 0 <= j < i + 1 && #[trigger] keys[j] == k {
                added[k]
            } else {
                start[k]
            }) by {
                if k == key@ {
                    assert(keys[i as int] == k);
                } else {
                    assert(before.dom().contains(k));
                    if exists|j: int| 0 <= j < i + 1 && #[trigger] keys[j] == k {
                        let j = choose|j: int| 0 <= j < i + 1 && #[trigger] keys[j] == k;
                        assert(j < i);
                    }
                }
            }
        }
        i += 1;
    }
    proof {
        let end = merged_views(merged@);
        assert forall|k: Seq<char>| added.dom().contains(k) <==> exists|j: int|
            0 <= j < n && #[trigger] keys[j] == k by {
            if added.dom().contains(k) {
                assert(state.entries@.dom().contains(k));
                assert(keys.contains(k));
                let j = choose|j: int| 0 <= j < keys.len() && keys[j] == k;
                assert(0 <= j < n && keys[j] == k);
            }
            if exists|j: int| 0 <= j < n && #[trigger] keys[j] == k {
                let j = choose|j: int| 0 <= j < n && #[trigger] keys[j] == k;
                assert(keys.contains(k));
            }
        }
        assert(end =~= start.union_prefer_right(added));
    }
}

/// The section of one kind.
fn render_kind<'a>(merged: &TextMap<Merged<'a>>, kind: HarnessEntryKind) -> (r: String)
    ensures
        r@ == kind_section(kind, sorted_keys(merged_views(merged@).dom()), merged_views(merged@)),
{
    let n: usize = merged.len();
    let ghost keys = merged.keys();
    let ghost views = merged_views(merged@);
    proof {
        assert(views.dom() =~= merged@.dom());
        assert(keys.take(0) =~= Seq::empty());
    }
    let mut found: bool = false;
    let mut blocks = String::new();
    let mut i: usize = 0;
    while i < n
        invariant
            i <= n,
            n == keys.len(),
            keys == merged.keys(),
            views == merged_views(merged@),
            blocks@ == kind_blocks(kind, keys.take(i as int), views),
            found == exists|j: int| 0 <= j < i && views[#[trigger] keys[j]].entry.kind == kind,
        decreases n - i,
    {
        let m = merged.value_at(i);
        let ghost before = found;
        proof {
            assert(keys.take(i + 1).drop_last() =~= keys.take(i as int));
            assert(keys.take(i + 1).last() == keys[i as int]);
            assert(views[keys[i as int]] == m@);
        }
        if m.entry.kind == kind {
            let block = render_entry(
                m.entry,
                if m.session {
                    "session"
                } else {
                    "global"
                },
            );
            blocks.append(block.as_str());
            found = true;
        } else {
            proof {
                assert(blocks@ + Seq::<char>::empty() =~= blocks@);
                if before {
                    let j = choose|j: int| 0 <= j < i && views[#[trigger] keys[j]].entry.kind
                        == kind;
                    assert(0 <= j < i + 1 && views[keys[j]].entry.kind == kind);
                }
            }
        }
        i += 1;
    }
    proof {
        assert(keys.take(n as int) =~= keys);
    }
    if !found {
        return String::new();
    }
    let mut out = "\n## ".to_owned();
    out.append(kind.section_heading());
    out.append("\n");
    out.append(blocks.as_str());
    out
}

/// The history part of a section.
fn render_history(events: &Vec<RefinementEvent>) -> (r: String)
    ensures
        r@ == history_section(event_views(events@)),
{
    let sorted = sort_newest_first(events);
    let ghost all = borrowed_views(sorted@);
    let n: usize = if sorted.len() <= MAX_RENDERED_REFINEMENT_HISTORY {
        sorted.len()
    } else {
        MAX_RENDERED_REFINEMENT_HISTORY
    };
    let ghost shown = shown_history(event_views(events@));
    proof {
        assert(shown =~= all.take(n as int));
    }
    if n == 0 {
        return String::new();
    }
    let mut out = "\n## Recent Refinements\n".to_owned();
    let ghost head = out@;
    proof {
        assert(shown.take(0) =~= Seq::empty());
        assert(head + Seq::<char>::empty() =~= head);
    }
    let mut i: usize = 0;
    while i < n
        invariant
            i <= n,
            n == shown.len(),
            n <= sorted@.len(),
            all == borrowed_views(sorted@),
            shown == all.take(n as int),
            out@ == head + history_lines(shown.take(i as int)),
        decreases n - i,
    {
        let line = event_line(sorted[i]);
        out.append(line.as_str());
        proof {
            assert(shown.take(i + 1).drop_last() =~= shown.take(i as int));
            assert(shown.take(i + 1).last() == sorted@[i as int]@);
            assert(out@ =~= head + history_lines(shown.take(i + 1)));
        }
        i += 1;
    }
    proof {
        assert(shown.take(n as int) =~= shown);
    }
    out
}

/// Checks the ledger given for one side of a scope pair.
fn check_side(state: Option<&EvolutionState>, global: bool) -> (r: Result<(), EvolutionError>)
    ensures
        refusal(r) == side_fault(state_view(state), global),
{
    if let Some(s) = state {
        s.validate()?;
        if s.scope.is_global() != global {
            return Err(
                EvolutionError::ScopeMismatch {
                    expected: if global {
                        "global".to_owned()
                    } else {
                        "session".to_owned()
                    },
                    actual: s.scope.to_text(),
                },
            );
        }
    }
    Ok(())
}

/// Renders the section for a scope pair, session entries overlaying global entries of the same
/// identifier. There is nothing to render where neither ledger holds an entry.
pub fn render_harness_supplement(
    global: Option<&EvolutionState>,
    session: Option<&EvolutionState>,
    recent_events: &Vec<RefinementEvent>,
) -> (r: Result<Option<String>, EvolutionError>)
    ensures
        match render_outcome(state_view(global), state_view(session), event_views(recent_events@)) {
            Ok(text) => r matches Ok(rendered) && crate::text::option_view(rendered) == text,
            Err(e) => refusal(r) == Some(e),
        },
{
    check_side(global, true)?;
    check_side(session, false)?;
    let mut merged: TextMap<Merged> = TextMap::new();
    let ghost left = side_entries(state_view(global)).map_values(
        |e: EntryView| MergedView { entry: e, session: false },
    );
    let ghost right = side_entries(state_view(session)).map_values(
        |e: EntryView| MergedView { entry: e, session: true },
    );
    proof {
        assert(merged_views(merged@) =~= Map::<Seq<char>, MergedView>::empty());
    }
    if let Some(state) = global {
        overlay(&mut merged, state, false);
    }
    proof {
        assert(merged_views(merged@) =~= left);
    }
    if let Some(state) = session {
        overlay(&mut merged, state, true);
    }
    let ghost all = merged_entries(
        side_entries(state_view(global)),
        side_entries(state_view(session)),
    );
    proof {
        assert(merged_views(merged@) =~= left.union_prefer_right(right));
        assert(all == left.union_prefer_right(right));
        assert(all.dom() =~= merged@.dom());
    }
    if merged.len() == 0 {
        return Ok(None);
    }
    let mut body = HARNESS_SUPPLEMENT_BEGIN.to_owned();
    body.append(SUPPLEMENT_INTRODUCTION);
    let prompts = render_kind(&merged, HarnessEntryKind::Prompt);
    body.append(prompts.as_str());
    let memories = render_kind(&merged, HarnessEntryKind::Memory);
    body.append(memories.as_str());
    let skills = render_kind(&merged, HarnessEntryKind::Skill);
    body.append(skills.as_str());
    let subagents = render_kind(&merged, HarnessEntryKind::Subagent);
    body.append(subagents.as_str());
    let history = render_history(recent_events);
    body.append(history.as_str());
    body.append(HARNESS_SUPPLEMENT_END);
    Ok(Some(body))
}

/// The first position of `needle` in `hay` at or behind `from`.
pub open spec fn first_from(hay: Seq<char>, needle: Seq<char>, from: int, at: int) -> bool {
    &&& from <= at
    &&& occurs_at(hay, needle, at)
    &&& forall|j: int| from <= j && #[trigger] occurs_at(hay, needle, j) ==> at <= j
}

/// Two texts with a blank line between them, where both hold something.
pub open spec fn joined_parts(head: Seq<char>, tail: Seq<char>) -> Seq<char> {
    if tail.len() == 0 {
        head
    } else if head.len() == 0 {
        tail
    } else {
        head + "\n\n"@ + tail
    }
}

/// What a prompt is without its section, told by the positions of the markers.
pub open spec fn stripped_at(prompt: Seq<char>, begin: int, end: int) -> Result<
    Seq<char>,
    Refusal,
> {
    let remainder = prompt.skip(end + HARNESS_SUPPLEMENT_END@.len());
    if crate::evolution::holds_marker(remainder) {
        Err(
            Refusal::MalformedSupplement("a prompt contains more than one supplement section"@),
        )
    } else {
        Ok(joined_parts(trim_end(prompt.take(begin)), trim_start(remainder)))
    }
}

/// What stripping the section from a prompt gives. A prompt without markers is kept; a marker
/// without its partner, or a second section, is refused.
pub open spec fn strip_outcome(prompt: Seq<char>) -> Result<Seq<char>, Refusal> {
    if !contains_text(prompt, HARNESS_SUPPLEMENT_BEGIN@) {
        if contains_text(prompt, HARNESS_SUPPLEMENT_END@) {
            Err(Refusal::MalformedSupplement("an end marker appears without a begin marker"@))
        } else {
            Ok(prompt)
        }
    } else {
        let begin = choose|at: int| first_from(prompt, HARNESS_SUPPLEMENT_BEGIN@, 0, at);
        let body = begin + HARNESS_SUPPLEMENT_BEGIN@.len();
        if contains_text(prompt.take(begin), HARNESS_SUPPLEMENT_END@) {
            Err(Refusal::MalformedSupplement("an end marker appears without a begin marker"@))
        } else if !(exists|at: int| body <= at && occurs_at(prompt, HARNESS_SUPPLEMENT_END@, at)) {
            Err(Refusal::MalformedSupplement("a begin marker appears without an end marker"@))
        } else {
            let end = choose|at: int| first_from(prompt, HARNESS_SUPPLEMENT_END@, body, at);
            stripped_at(prompt, begin, end)
        }
    }
}

proof fn lemma_first_unique(hay: Seq<char>, needle: Seq<char>, from: int, a: int, b: int)
    requires
        first_from(hay, needle, from, a),
        first_from(hay, needle, from, b),
    ensures
        a == b,
{
    assert(occurs_at(hay, needle, a));
    assert(occurs_at(hay, needle, b));
}

/// Removes the section that a prompt carries.
pub fn strip_harness_supplement(prompt: &str) -> (r: Result<String, EvolutionError>)
    ensures
        match strip_outcome(prompt@) {
            Ok(text) => r matches Ok(stripped) && stripped@ == text,
            Err(e) => refusal(r) == Some(e),
        },
{
    let chars = chars_of(prompt);
    let begin_marker = chars_of(HARNESS_SUPPLEMENT_BEGIN);
    let end_marker = chars_of(HARNESS_SUPPLEMENT_END);
    let begin: usize = match find_from(&chars, &begin_marker, 0) {
        Some(at) => at,
        None => {
            proof {
                assert forall|j: int| !occurs_at(prompt@, HARNESS_SUPPLEMENT_BEGIN@, j) by {
                    if j >= 0 {
                    }
                }
                assert(!contains_text(prompt@, HARNESS_SUPPLEMENT_BEGIN@));
            }
            if holds_text(prompt, HARNESS_SUPPLEMENT_END) {
                return Err(
                    EvolutionError::MalformedSupplement(
                        "an end marker appears without a begin marker".to_owned(),
                    ),
                );
            }
            return Ok(prompt.to_owned());
        },
    };
    let ghost chosen = choose|at: int| first_from(prompt@, HARNESS_SUPPLEMENT_BEGIN@, 0, at);
    proof {
        assert(first_from(prompt@, HARNESS_SUPPLEMENT_BEGIN@, 0, begin as int));
        lemma_first_unique(prompt@, HARNESS_SUPPLEMENT_BEGIN@, 0, begin as int, chosen);
        assert(contains_text(prompt@, HARNESS_SUPPLEMENT_BEGIN@));
    }
    let size: usize = chars.len();
    let body: usize = begin + begin_marker.len();
    let head = text_of(&chars, 0, begin);
    assert(head@ =~= prompt@.take(begin as int));
    if holds_text(head.as_str(), HARNESS_SUPPLEMENT_END) {
        return Err(
            EvolutionError::MalformedSupplement(
                "an end marker appears without a begin marker".to_owned(),
            ),
        );
    }
    let end: usize = match find_from(&chars, &end_marker, body) {
        Some(at) => at,
        None => {
            return Err(
                EvolutionError::MalformedSupplement(
                    "a begin marker appears without an end marker".to_owned(),
                ),
            );
        },
    };
    let ghost chosen_end = choose|at: int|
        first_from(prompt@, HARNESS_SUPPLEMENT_END@, body as int, at);
    proof {
        assert(first_from(prompt@, HARNESS_SUPPLEMENT_END@, body as int, end as int));
        lemma_first_unique(prompt@, HARNESS_SUPPLEMENT_END@, body as int, end as int, chosen_end);
        assert(occurs_at(prompt@, HARNESS_SUPPLEMENT_END@, end as int));
    }
    let rest: usize = end + end_marker.len();
    let remainder = text_of(&chars, rest, size);
    assert(remainder@ =~= prompt@.skip(end + HARNESS_SUPPLEMENT_END@.len()));
    if holds_text(remainder.as_str(), HARNESS_SUPPLEMENT_BEGIN) || holds_text(
        remainder.as_str(),
        HARNESS_SUPPLEMENT_END,
    ) {
        return Err(
            EvolutionError::MalformedSupplement(
                "a prompt contains more than one supplement section".to_owned(),
            ),
        );
    }
    let mut stripped = trim_end_text(head.as_str());
    let tail = trim_start_text(remainder.as_str());
    if !tail.as_str().is_empty() {
        if !stripped.as_str().is_empty() {
            stripped.append("\n\n");
            stripped.append(tail.as_str());
        } else {
            proof {
                assert(stripped@ + tail@ =~= tail@);
            }
            stripped.append(tail.as_str());
        }
    }
    Ok(stripped)
}

/// A prompt with a section: the stripped prompt, a blank line and the section.
pub open spec fn next_prompt(stripped: Seq<char>, supplement: Option<Seq<char>>) -> Seq<char> {
    match supplement {
        Some(section) => if stripped.len() == 0 {
            section
        } else {
            stripped + "\n\n"@ + section
        },
        None => stripped,
    }
}

/// What deriving the next prompt of a base prompt gives; nothing where the base already is it.
pub open spec fn evolved_prompt(
    base: Seq<char>,
    global: Option<StateView>,
    session: Option<StateView>,
    events: Seq<EventView>,
) -> Result<Option<Seq<char>>, Refusal> {
    match snapshot_prompt_fault(base) {
        Some(e) => Err(e),
        None => match render_outcome(global, session, events) {
            Err(e) => Err(e),
            Ok(supplement) => match strip_outcome(base) {
                Err(e) => Err(e),
                Ok(stripped) => {
                    let next = next_prompt(trim_end(stripped), supplement);
                    if next == base {
                        Ok(None)
                    } else {
                        Ok(Some(next))
                    }
                },
            },
        },
    }
}

/// The events that a patch cites.
pub open spec fn cited_evidence(events: Seq<EventView>) -> Seq<EvidenceView> {
    let n = if events.len() <= MAX_HARNESS_EVIDENCE_REFS {
        events.len() as int
    } else {
        MAX_HARNESS_EVIDENCE_REFS as int
    };
    Seq::new(
        n as nat,
        |i: int|
            EvidenceView {
                kind: HarnessEvidenceKind::Refinement,
                reference: events[i].event_id,
            },
    )
}

/// Whether one of the cited events has no identity.
pub open spec fn cites_blank(events: Seq<EventView>) -> bool {
    exists|i: int|
        0 <= i < cited_evidence(events).len() && is_blank(
            (#[trigger] cited_evidence(events)[i]).reference,
        )
}

/// Cites the events, up to the greatest number of citations.
fn cite(recent_events: &Vec<RefinementEvent>) -> (r: Result<
    Vec<HarnessEvidenceRef>,
    EvolutionError,
>)
    ensures
        if cites_blank(event_views(recent_events@)) {
            refusal(r) == Some(Refusal::Harness("an evidence reference must not be empty"@))
        } else {
            r is Ok && evidence_views(r->Ok_0@) == cited_evidence(event_views(recent_events@))
        },
{
    let ghost events = event_views(recent_events@);
    let n: usize = if recent_events.len() <= MAX_HARNESS_EVIDENCE_REFS {
        recent_events.len()
    } else {
        MAX_HARNESS_EVIDENCE_REFS
    };
    let mut evidence: Vec<HarnessEvidenceRef> = Vec::new();
    let mut i: usize = 0;
    while i < n
        invariant
            i <= n,
            n <= recent_events@.len(),
            n == cited_evidence(events).len(),
            events == event_views(recent_events@),
            evidence_views(evidence@) =~= cited_evidence(events).take(i as int),
            forall|j: int|
                0 <= j < i ==> !is_blank((#[trigger] cited_evidence(events)[j]).reference),
        decreases n - i,
    {
        let ghost before = evidence_views(evidence@);
        assert(cited_evidence(events)[i as int].reference == recent_events@[i as int]@.event_id);
        match HarnessEvidenceRef::new(
            HarnessEvidenceKind::Refinement,
            recent_events[i].event_id.as_str(),
        ) {
            Ok(cited) => {
                evidence.push(cited);
                proof {
                    assert(evidence_views(evidence@) =~= before.push(cited@));
                }
            },
            Err(e) => {
                assert(cites_blank(events));
                return Err(e);
            },
        }
        i += 1;
    }
    proof {
        assert(cited_evidence(events).take(n as int) =~= cited_evidence(events));
    }
    Ok(evidence)
}

/// What deriving a patch for a base snapshot gives. It is based on the address of that snapshot,
/// changes the system prompt alone and cites the events at the head of the history.
pub open spec fn evolution_outcome(
    base: SnapshotView,
    global: Option<StateView>,
    session: Option<StateView>,
    events: Seq<EventView>,
) -> Result<Option<PatchView>, Refusal> {
    match base.fault() {
        Some(e) => Err(e),
        None => match evolved_prompt(base.system_prompt, global, session, events) {
            Err(e) => Err(e),
            Ok(None) => Ok(None),
            Ok(Some(next)) => if cites_blank(events) {
                Err(Refusal::Harness("an evidence reference must not be empty"@))
            } else {
                Ok(
                    Some(
                        PatchView {
                            base_digest: base.digest,
                            system_prompt: next,
                            evidence: cited_evidence(events),
                        },
                    ),
                )
            },
        },
    }
}

/// The snapshot that a patch gives of its base: the base with the patch's system prompt, under the
/// address of its new content.
pub open spec fn patched(base: SnapshotView, patch: PatchView) -> SnapshotView {
    SnapshotView {
        digest: content_address(patch.system_prompt, base.rules),
        system_prompt: patch.system_prompt,
        rules: base.rules,
    }
}

/// Derives the patch that evolves a base snapshot to carry the current merged ledger. There is
/// none where the base already carries exactly this section.
pub fn evolved_refinement(
    base: &HarnessSnapshot,
    global: Option<&EvolutionState>,
    session: Option<&EvolutionState>,
    recent_events: &Vec<RefinementEvent>,
) -> (r: Result<Option<HarnessRefinementPatch>, EvolutionError>)
    ensures
        match evolution_outcome(
            base@,
            state_view(global),
            state_view(session),
            event_views(recent_events@),
        ) {
            Err(e) => refusal(r) == Some(e),
            Ok(None) => r matches Ok(None),
            Ok(Some(patch)) => r matches Ok(Some(made)) && made@ == patch,
        },
{
    base.validate()?;
    let supplement = render_harness_supplement(global, session, recent_events)?;
    let stripped = strip_harness_supplement(base.system_prompt.as_str())?;
    let mut next = trim_end_text(stripped.as_str());
    if let Some(section) = supplement {
        if next.as_str().is_empty() {
            next = section;
        } else {
            next.append("\n\n");
            next.append(section.as_str());
        }
    }
    if same_text(next.as_str(), base.system_prompt.as_str()) {
        return Ok(None);
    }
    let evidence = cite(recent_events)?;
    let patch = HarnessRefinementPatch {
        base_digest: base.digest.clone(),
        system_prompt: next,
        evidence,
    };
    assert(patch@.evidence =~= evidence_views(evidence@));
    Ok(Some(patch))
}

/// A prompt that carries no marker is stripped of nothing.
pub proof fn law_strip_keeps_unmarked_prompts(prompt: Seq<char>)
    requires
        !crate::evolution::holds_marker(prompt),
    ensures
        strip_outcome(prompt) == Ok::<Seq<char>, Refusal>(prompt),
{
}

} // verus!
