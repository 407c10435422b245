//! What a rendered section and a planner's prompt show, and what is read of a planner's reply.

use crate::evolution::entry::{EntryView, HarnessEntryKind};
use crate::evolution::event::EventView;
use crate::evolution::planner::{
    bare_or_fenced, broken_lines, object_outcome, object_span, planner_prompt,
};
use crate::evolution::settling::side_finite;
use crate::evolution::state::StateView;
use crate::evolution::supplement::{
    entry_block, history_line, history_lines, history_section, kind_blocks, kind_section,
    law_history_is_newest_first, merged_entries, newest_first, origin_label, render_outcome,
    shown_history, side_entries, supplement_text, MergedView, SUPPLEMENT_INTRODUCTION,
};
use crate::evolution::{
    Refusal, HARNESS_SUPPLEMENT_BEGIN, HARNESS_SUPPLEMENT_END, MAX_RENDERED_REFINEMENT_HISTORY,
};
use crate::text::{contains_text, decimal, is_blank, occurs_at};
use crate::text_map::{lemma_listing_exists, sorted_keys};
use vstd::prelude::*;

verus! {

/// The entries of a pair of ledgers are those of either; where both have one under an identifier,
/// the session's counts.
pub proof fn law_sessions_overlay_global_entries(
    global: Map<Seq<char>, EntryView>,
    session: Map<Seq<char>, EntryView>,
    id: Seq<char>,
)
    ensures
        ({
            let merged = merged_entries(global, session);
            &&& merged.dom().contains(id) <==> global.dom().contains(id) || session.dom().contains(
                id,
            )
            &&& session.dom().contains(id) ==> merged[id].entry == session[id] && merged[id].session
            &&& global.dom().contains(id) && !session.dom().contains(id) ==> merged[id].entry
                == global[id] && !merged[id].session
        }),
{
}

proof fn lemma_shown_in(a: Seq<char>, b: Seq<char>, text: Seq<char>)
    ensures
        contains_text(a, text) ==> contains_text(a + b, text),
        contains_text(b, text) ==> contains_text(a + b, text),
{
    let n = text.len() as int;
    if contains_text(a, text) {
        let at = choose|at: int| occurs_at(a, text, at);
        assert((a + b).subrange(at, at + n) =~= a.subrange(at, at + n));
        assert(occurs_at(a + b, text, at));
    }
    if contains_text(b, text) {
        let at = choose|at: int| occurs_at(b, text, at);
        let there = a.len() + at;
        assert((a + b).subrange(there, there + n) =~= b.subrange(at, at + n));
        assert(occurs_at(a + b, text, there));
    }
}

proof fn lemma_shows_itself(a: Seq<char>, text: Seq<char>, b: Seq<char>)
    ensures
        contains_text(a + text + b, text),
{
    let all = a + text + b;
    let at = a.len() as int;
    assert(all.subrange(at, at + text.len()) =~= text);
    assert(occurs_at(all, text, at));
}

proof fn lemma_blocks_show(
    kind: HarnessEntryKind,
    keys: Seq<Seq<char>>,
    merged: Map<Seq<char>, MergedView>,
    i: int,
    text: Seq<char>,
)
    requires
        0 <= i < keys.len(),
        merged[keys[i]].entry.kind == kind,
        contains_text(
            entry_block(merged[keys[i]].entry, origin_label(merged[keys[i]].session)),
            text,
        ),
    ensures
        contains_text(kind_blocks(kind, keys, merged), text),
    decreases keys.len(),
{
    let before = kind_blocks(kind, keys.drop_last(), merged);
    let m = merged[keys.last()];
    let block = if m.entry.kind == kind {
        entry_block(m.entry, origin_label(m.session))
    } else {
        Seq::empty()
    };
    if i < keys.len() - 1 {
        lemma_blocks_show(kind, keys.drop_last(), merged, i, text);
    }
    lemma_shown_in(before, block, text);
}

proof fn lemma_section_shows(
    merged: Map<Seq<char>, MergedView>,
    events: Seq<EventView>,
    kind: HarnessEntryKind,
    text: Seq<char>,
)
    ensures
        contains_text(kind_section(kind, sorted_keys(merged.dom()), merged), text)
            ==> contains_text(supplement_text(merged, events), text),
        contains_text(history_section(events), text) ==> contains_text(
            supplement_text(merged, events),
            text,
        ),
{
    let keys = sorted_keys(merged.dom());
    let s0 = HARNESS_SUPPLEMENT_BEGIN@ + SUPPLEMENT_INTRODUCTION@;
    let a = kind_section(HarnessEntryKind::Prompt, keys, merged);
    let b = kind_section(HarnessEntryKind::Memory, keys, merged);
    let c = kind_section(HarnessEntryKind::Skill, keys, merged);
    let d = kind_section(HarnessEntryKind::Subagent, keys, merged);
    let h = history_section(events);
    lemma_shown_in(s0, a, text);
    lemma_shown_in(s0 + a, b, text);
    lemma_shown_in(s0 + a + b, c, text);
    lemma_shown_in(s0 + a + b + c, d, text);
    lemma_shown_in(s0 + a + b + c + d, h, text);
    lemma_shown_in(s0 + a + b + c + d + h, HARNESS_SUPPLEMENT_END@, text);
}

/// A section is rendered exactly where either ledger has an entry. It shows every entry of the
/// pair: its title, the ledger that it comes from, its identifier, its version and its content, and
/// the invocation of its skill.
pub proof fn law_sections_show_every_entry(
    global: Option<StateView>,
    session: Option<StateView>,
    events: Seq<EventView>,
    id: Seq<char>,
)
    requires
        side_finite(global),
        side_finite(session),
        render_outcome(global, session, events) is Ok,
    ensures
        ({
            let answer = render_outcome(global, session, events)->Ok_0;
            let section = answer->Some_0;
            let own = side_entries(session).dom().contains(id);
            let there = own || side_entries(global).dom().contains(id);
            let entry = if own {
                side_entries(session)[id]
            } else {
                side_entries(global)[id]
            };
            let ledger = if own {
                "session"@
            } else {
                "global"@
            };
            there ==> {
                &&& answer is Some
                &&& contains_text(
                    section,
                    "\n### "@ + entry.title + " ("@ + ledger + " · "@ + entry.id + " · v"@ + decimal(
                        entry.version as nat,
                    ) + ")\n"@ + entry.content + "\n"@,
                )
                &&& entry.skill is Some ==> contains_text(
                    section,
                    "Invocation: `"@ + entry.skill->Some_0.invocation + "`\n"@,
                )
            }
        }),
        (forall|k: Seq<char>|
            !(#[trigger] side_entries(global).dom().contains(k)) && !side_entries(
                session,
            ).dom().contains(k)) ==> render_outcome(global, session, events)->Ok_0 is None,
{
    let g = side_entries(global);
    let s = side_entries(session);
    let merged = merged_entries(g, s);
    let keys = sorted_keys(merged.dom());
    assert(merged.dom() =~= g.dom().union(s.dom()));
    lemma_listing_exists(merged.dom());
    law_sessions_overlay_global_entries(g, s, id);
    if merged.dom().contains(id) {
        assert(keys.contains(id));
        let i = choose|i: int| 0 <= i < keys.len() && keys[i] == id;
        let m = merged[id];
        let entry = m.entry;
        let ledger = origin_label(m.session);
        let block = entry_block(entry, ledger);
        let head = "\n### "@ + entry.title + " ("@ + ledger + " · "@ + entry.id + " · v"@ + decimal(
            entry.version as nat,
        ) + ")\n"@ + entry.content + "\n"@;
        let kind = entry.kind;
        lemma_shows_itself(Seq::empty(), head, Seq::empty());
        assert(Seq::<char>::empty() + head + Seq::<char>::empty() =~= head);
        lemma_text_in_section(merged, events, keys, i, head);
        if entry.skill is Some {
            let skill = entry.skill->Some_0;
            let words = "Invocation: `"@ + skill.invocation + "`\n"@;
            let lines = crate::evolution::supplement::skill_lines(skill);
            let more = crate::evolution::supplement::argument_lines(
                sorted_keys(skill.arguments.dom()),
                skill.arguments,
            );
            lemma_shows_itself(Seq::empty(), words, more);
            assert(Seq::<char>::empty() + words + more =~= lines);
            assert(block == head + lines);
            lemma_shown_in(head, lines, words);
            lemma_text_in_section(merged, events, keys, i, words);
        }
    }
    if forall|k: Seq<char>|
        !(#[trigger] g.dom().contains(k)) && !s.dom().contains(k) {
        if keys.len() > 0 {
            assert(keys.contains(keys[0]));
            assert(merged.dom().contains(keys[0]));
        }
    }
}

proof fn lemma_text_in_section(
    merged: Map<Seq<char>, MergedView>,
    events: Seq<EventView>,
    keys: Seq<Seq<char>>,
    i: int,
    text: Seq<char>,
)
    requires
        keys == sorted_keys(merged.dom()),
        0 <= i < keys.len(),
        ({
            let m = merged[keys[i]];
            let head = "\n### "@ + m.entry.title + " ("@ + origin_label(m.session) + " · "@
                + m.entry.id + " · v"@ + decimal(m.entry.version as nat) + ")\n"@ + m.entry.content
                + "\n"@;
            contains_text(head, text) || contains_text(
                entry_block(m.entry, origin_label(m.session)),
                text,
            )
        }),
    ensures
        contains_text(supplement_text(merged, events), text),
{
    let m = merged[keys[i]];
    let kind = m.entry.kind;
    let head = "\n### "@ + m.entry.title + " ("@ + origin_label(m.session) + " · "@ + m.entry.id
        + " · v"@ + decimal(m.entry.version as nat) + ")\n"@ + m.entry.content + "\n"@;
    let rest = match m.entry.skill {
        Some(skill) => crate::evolution::supplement::skill_lines(skill),
        None => Seq::empty(),
    };
    assert(entry_block(m.entry, origin_label(m.session)) == head + rest);
    lemma_shown_in(head, rest, text);
    lemma_blocks_show(kind, keys, merged, i, text);
    let blocks = kind_blocks(kind, keys, merged);
    assert(crate::evolution::supplement::has_kind(kind, keys, merged)) by {
        assert(merged[keys[i]].entry.kind == kind);
    }
    lemma_shown_in("\n## "@ + kind.heading() + "\n"@, blocks, text);
    lemma_section_shows(merged, events, kind, text);
}

proof fn lemma_history_shows(events: Seq<EventView>, i: int, text: Seq<char>)
    requires
        0 <= i < events.len(),
        contains_text(history_line(events[i]), text),
    ensures
        contains_text(history_lines(events), text),
    decreases events.len(),
{
    if i < events.len() - 1 {
        lemma_history_shows(events.drop_last(), i, text);
    }
    lemma_shown_in(history_lines(events.drop_last()), history_line(events.last()), text);
}

/// A rendered section shows the newest events, up to the greatest number of them, each by its
/// summary; an event is left out only where that many others are at least as new.
pub proof fn law_sections_show_the_newest_events(
    global: Option<StateView>,
    session: Option<StateView>,
    events: Seq<EventView>,
)
    requires
        render_outcome(global, session, events) is Ok,
        render_outcome(global, session, events)->Ok_0 is Some,
    ensures
        ({
            let section = render_outcome(global, session, events)->Ok_0->Some_0;
            let shown = shown_history(events);
            &&& shown.len() == events.len() || shown.len() == MAX_RENDERED_REFINEMENT_HISTORY
            &&& shown.len() <= events.len()
            &&& shown == newest_first(events).take(shown.len() as int)
            &&& forall|i: int|
                0 <= i < shown.len() ==> contains_text(section, (#[trigger] shown[i]).summary)
        }),
{
    law_history_is_newest_first(events);
    let merged = merged_entries(side_entries(global), side_entries(session));
    let shown = shown_history(events);
    assert(shown =~= newest_first(events).take(shown.len() as int));
    assert forall|i: int| 0 <= i < shown.len() implies contains_text(
        supplement_text(merged, events),
        (#[trigger] shown[i]).summary,
    ) by {
        let e = shown[i];
        let before = "- ["@ + e.scope.label() + " rev "@ + decimal(e.resulting_revision as nat)
            + "] "@;
        let behind = " (applied "@ + decimal(e.applied.len()) + ", rejected "@ + decimal(
            e.rejected.len(),
        ) + ")\n"@;
        lemma_shows_itself(before, e.summary, behind);
        assert(history_line(e) =~= before + e.summary + behind);
        lemma_history_shows(shown, i, e.summary);
        lemma_shown_in("\n## Recent Refinements\n"@, history_lines(shown), e.summary);
        lemma_section_shows(merged, events, HarnessEntryKind::Prompt, e.summary);
    }
}

proof fn lemma_broken_lines_show(lines: Seq<Seq<char>>, i: int)
    requires
        0 <= i < lines.len(),
    ensures
        contains_text(broken_lines(lines), lines[i]),
    decreases lines.len(),
{
    let before = broken_lines(lines.drop_last());
    let last = lines.last();
    assert(broken_lines(lines) =~= before + last + seq!['\n']);
    if i < lines.len() - 1 {
        lemma_broken_lines_show(lines.drop_last(), i);
        lemma_shown_in(before, last, lines[i]);
        lemma_shown_in(before + last, seq!['\n'], lines[i]);
    } else {
        lemma_shows_itself(before, last, seq!['\n']);
    }
}

/// The prompt of a planner shows the transcript at its end, and the overview where it says
/// anything, every line of the history, and the instructions where there are any.
pub proof fn law_planners_are_shown_everything(
    overview: Option<Seq<char>>,
    history: Seq<Seq<char>>,
    instructions: Option<Seq<char>>,
    transcript: Seq<char>,
)
    ensures
        ({
            let prompt = planner_prompt(overview, history, instructions, transcript);
            &&& prompt.len() >= transcript.len()
            &&& prompt.skip(prompt.len() - transcript.len()) == transcript
            &&& overview is Some && !is_blank(overview->Some_0) ==> contains_text(
                prompt,
                overview->Some_0,
            )
            &&& forall|i: int|
                0 <= i < history.len() ==> contains_text(prompt, #[trigger] history[i])
            &&& instructions matches Some(text) ==> contains_text(prompt, text)
        }),
{
    let harness = match overview {
        Some(text) => if is_blank(text) {
            "(empty)\n"@
        } else {
            text.push('\n')
        },
        None => "(empty)\n"@,
    };
    let outcomes = if history.len() == 0 {
        "(none)\n"@
    } else {
        broken_lines(history)
    };
    let focus = match instructions {
        Some(text) => ("\n## Focus\n"@ + text).push('\n'),
        None => Seq::empty(),
    };
    let p1 = "## Current harness\n"@ + harness;
    let p2 = p1 + "\n## Recent refinement outcomes\n"@;
    let p3 = p2 + outcomes;
    let p4 = p3 + focus;
    let p5 = p4 + "\n## Trajectory\n"@;
    let prompt = planner_prompt(overview, history, instructions, transcript);
    assert(prompt == p5 + transcript);
    assert(prompt.skip(prompt.len() - transcript.len()) =~= transcript);
    if overview is Some && !is_blank(overview->Some_0) {
        let text = overview->Some_0;
        lemma_shows_itself(Seq::empty(), text, seq!['\n']);
        assert(Seq::<char>::empty() + text + seq!['\n'] =~= harness);
        lemma_carried_on(p1, p2, p3, p4, p5, prompt, harness, outcomes, focus, transcript, text);
    }
    assert forall|i: int| 0 <= i < history.len() implies contains_text(
        prompt,
        #[trigger] history[i],
    ) by {
        lemma_broken_lines_show(history, i);
        lemma_carried_on(
            p1,
            p2,
            p3,
            p4,
            p5,
            prompt,
            harness,
            outcomes,
            focus,
            transcript,
            history[i],
        );
    }
    if instructions is Some {
        let text = instructions->Some_0;
        lemma_shows_itself("\n## Focus\n"@, text, seq!['\n']);
        assert("\n## Focus\n"@ + text + seq!['\n'] =~= focus);
        lemma_carried_on(p1, p2, p3, p4, p5, prompt, harness, outcomes, focus, transcript, text);
    }
}

proof fn lemma_carried_on(
    p1: Seq<char>,
    p2: Seq<char>,
    p3: Seq<char>,
    p4: Seq<char>,
    p5: Seq<char>,
    prompt: Seq<char>,
    harness: Seq<char>,
    outcomes: Seq<char>,
    focus: Seq<char>,
    transcript: Seq<char>,
    text: Seq<char>,
)
    requires
        p1 == "## Current harness\n"@ + harness,
        p2 == p1 + "\n## Recent refinement outcomes\n"@,
        p3 == p2 + outcomes,
        p4 == p3 + focus,
        p5 == p4 + "\n## Trajectory\n"@,
        prompt == p5 + transcript,
        contains_text(harness, text) || contains_text(outcomes, text) || contains_text(focus, text),
    ensures
        contains_text(prompt, text),
{
    lemma_shown_in("## Current harness\n"@, harness, text);
    lemma_shown_in(p1, "\n## Recent refinement outcomes\n"@, text);
    lemma_shown_in(p2, outcomes, text);
    lemma_shown_in(p3, focus, text);
    lemma_shown_in(p4, "\n## Trajectory\n"@, text);
    lemma_shown_in(p5, transcript, text);
}

/// What is read of a reply is a part of it that runs from its first opening brace to its last
/// closing brace.
pub proof fn law_objects_run_from_brace_to_brace(reply: Seq<char>)
    ensures
        object_outcome(reply) matches Ok(object) ==> {
            &&& object.len() >= 2
            &&& object[0] == '{'
            &&& object.last() == '}'
            &&& contains_text(reply, object)
        },
{
    if object_outcome(reply) is Ok {
        lemma_span_exists(reply);
        let (start, end) = choose|start: int, end: int| object_span(reply, start, end);
        assert(object_span(reply, start, end));
        assert(start != end);
        let object = reply.subrange(start, end + 1);
        assert(occurs_at(reply, object, start));
    }
}

proof fn lemma_span_exists(reply: Seq<char>)
    requires
        reply.contains('{'),
        reply.contains('}'),
    ensures
        exists|start: int, end: int| object_span(reply, start, end),
{
    let a = choose|a: int| 0 <= a < reply.len() && reply[a] == '{';
    let b = choose|b: int| 0 <= b < reply.len() && reply[b] == '}';
    let start = lemma_first_brace(reply, a);
    let end = lemma_last_brace(reply, b);
    assert(object_span(reply, start, end));
}

proof fn lemma_first_brace(reply: Seq<char>, a: int) -> (start: int)
    requires
        0 <= a < reply.len(),
        reply[a] == '{',
    ensures
        0 <= start <= a,
        reply[start] == '{',
        forall|i: int| 0 <= i < start ==> reply[i] != '{',
    decreases a,
{
    if exists|i: int| 0 <= i < a && reply[i] == '{' {
        let i = choose|i: int| 0 <= i < a && reply[i] == '{';
        lemma_first_brace(reply, i)
    } else {
        a
    }
}

proof fn lemma_last_brace(reply: Seq<char>, b: int) -> (end: int)
    requires
        0 <= b < reply.len(),
        reply[b] == '}',
    ensures
        b <= end < reply.len(),
        reply[end] == '}',
        forall|i: int| end < i < reply.len() ==> reply[i] != '}',
    decreases reply.len() - b,
{
    if exists|i: int| b < i < reply.len() && reply[i] == '}' {
        let i = choose|i: int| b < i < reply.len() && reply[i] == '}';
        lemma_last_brace(reply, i)
    } else {
        b
    }
}

/// An object is read whole wherever the reply is that object, bare or in a fence: with nothing but
/// whitespace around it, or behind a line that opens a fence and before one that closes it. With
/// anything else around it nothing is read.
pub proof fn law_bare_and_fenced_objects_are_read(
    before: Seq<char>,
    object: Seq<char>,
    after: Seq<char>,
)
    requires
        object.len() >= 2,
        object[0] == '{',
        object.last() == '}',
        !before.contains('{'),
        !after.contains('}'),
    ensures
        bare_or_fenced(before, after) ==> object_outcome(before + object + after) == Ok::<
            Seq<char>,
            Refusal,
        >(object),
        is_blank(before) && is_blank(after) ==> object_outcome(before + object + after) == Ok::<
            Seq<char>,
            Refusal,
        >(object),
        !bare_or_fenced(before, after) ==> object_outcome(before + object + after) is Err,
{
    let reply = before + object + after;
    let a = before.len() as int;
    let b = a + object.len() - 1;
    assert(reply[a] == object[0]);
    assert(reply[b] == object[object.len() - 1]);
    assert(reply.contains('{'));
    assert(reply.contains('}'));
    assert(object_span(reply, a, b)) by {
        assert forall|i: int| 0 <= i < a implies reply[i] != '{' by {
            assert(before.contains(before[i]));
        }
        assert forall|i: int| b < i < reply.len() implies reply[i] != '}' by {
            assert(after.contains(after[i - b - 1]));
        }
    }
    let (start, end) = choose|start: int, end: int| object_span(reply, start, end);
    assert(object_span(reply, start, end));
    assert(start == a);
    assert(end == b);
    assert(reply.take(start) =~= before);
    assert(reply.skip(end + 1) =~= after);
    assert(reply.subrange(start, end + 1) =~= object);
}

} // verus!
