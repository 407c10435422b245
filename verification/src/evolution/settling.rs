//! Evolving a prompt settles: the section that was written in is found again, whole, and a second
//! derivation from the same ledgers leaves the prompt as it is.

use crate::evolution::entry::{
    argument_fault, lemma_arguments_checked, EntryView, HarnessEntryKind, SkillView,
};
use crate::evolution::event::EventView;
use crate::evolution::state::{lemma_entries_checked, StateView};
use crate::evolution::supplement::{
    argument_lines, cited_evidence, cites_blank, entry_block, evolution_outcome, evolved_prompt,
    first_from, has_kind, history_line, history_lines, history_section, joined_parts, kind_blocks,
    kind_section, law_history_is_newest_first, merged_entries, newest_first, next_prompt,
    origin_label, patched, render_outcome, shown_history, side_entries, skill_lines, strip_outcome,
    stripped_at, MergedView, SUPPLEMENT_INTRODUCTION,
};
use crate::evolution::{
    holds_marker, Refusal, HARNESS_SUPPLEMENT_BEGIN, HARNESS_SUPPLEMENT_END,
    MAX_HARNESS_EVIDENCE_REFS,
};
use crate::harness::snapshot::{snapshot_prompt_fault, SnapshotView};
use crate::harness::PatchView;
use crate::text::{
    contains_text, decimal, is_blank, is_digit, is_whitespace, lemma_decimal_digits, occurs_at,
    trim_end, trim_start,
};
use crate::text_map::{lemma_listing_exists, sorted_keys};
use vstd::prelude::*;

verus! {

/// Whether a text stands nowhere in another.
#[verifier::opaque]
spec fn absent(s: Seq<char>, marker: Seq<char>) -> bool {
    forall|at: int| !#[trigger] occurs_at(s, marker, at)
}

/// Whether a text carries neither marker.
spec fn clear(s: Seq<char>) -> bool {
    absent(s, HARNESS_SUPPLEMENT_BEGIN@) && absent(s, HARNESS_SUPPLEMENT_END@)
}

/// Whether a character stands in neither marker.
spec fn outside(c: char) -> bool {
    !(c == '<' || c == '>' || c == '/' || c == '_' || 'a' <= c <= 'z')
}

proof fn lemma_markers()
    ensures
        HARNESS_SUPPLEMENT_BEGIN@.len() == 19,
        HARNESS_SUPPLEMENT_END@.len() == 20,
        HARNESS_SUPPLEMENT_BEGIN@[0] == '<',
        HARNESS_SUPPLEMENT_END@[0] == '<',
        forall|i: int| 0 <= i < 19 ==> !outside(#[trigger] HARNESS_SUPPLEMENT_BEGIN@[i]),
        forall|i: int| 0 <= i < 20 ==> !outside(#[trigger] HARNESS_SUPPLEMENT_END@[i]),
        !is_whitespace('<'),
{
    reveal_strlit("<continual_harness>");
    reveal_strlit("</continual_harness>");
}

proof fn lemma_unopened_is_clear(s: Seq<char>)
    requires
        forall|i: int| 0 <= i < s.len() ==> #[trigger] s[i] != '<',
    ensures
        clear(s),
{
    reveal(absent);
    lemma_markers();
    assert forall|at: int| !#[trigger] occurs_at(s, HARNESS_SUPPLEMENT_BEGIN@, at) by {
        if occurs_at(s, HARNESS_SUPPLEMENT_BEGIN@, at) {
            assert(s.subrange(at, at + 19)[0] == s[at]);
        }
    }
    assert forall|at: int| !#[trigger] occurs_at(s, HARNESS_SUPPLEMENT_END@, at) by {
        if occurs_at(s, HARNESS_SUPPLEMENT_END@, at) {
            assert(s.subrange(at, at + 20)[0] == s[at]);
        }
    }
}

/// A marker does not reach across a character that it does not hold.
proof fn lemma_absent_join(a: Seq<char>, b: Seq<char>, marker: Seq<char>)
    requires
        absent(a, marker),
        absent(b, marker),
        marker.len() > 0,
        forall|i: int| 0 <= i < marker.len() ==> !outside(#[trigger] marker[i]),
        a.len() == 0 || b.len() == 0 || outside(a.last()) || outside(b[0]),
    ensures
        absent(a + b, marker),
{
    reveal(absent);
    let s = a + b;
    let n = marker.len() as int;
    assert forall|at: int| !#[trigger] occurs_at(s, marker, at) by {
        if occurs_at(s, marker, at) {
            let part = s.subrange(at, at + n);
            if at + n <= a.len() {
                assert(a.subrange(at, at + n) =~= part);
                assert(occurs_at(a, marker, at));
            } else if at >= a.len() {
                assert(b.subrange(at - a.len(), at - a.len() + n) =~= part);
                assert(occurs_at(b, marker, at - a.len()));
            } else {
                let k = a.len() - 1 - at;
                assert(part[k] == a.last());
                assert(part[k + 1] == b[0]);
                assert(!outside(marker[k]) && !outside(marker[k + 1]));
            }
        }
    }
}

proof fn lemma_clear_join(a: Seq<char>, b: Seq<char>)
    requires
        clear(a),
        clear(b),
        a.len() == 0 || b.len() == 0 || outside(a.last()) || outside(b[0]),
    ensures
        clear(a + b),
{
    lemma_markers();
    lemma_absent_join(a, b, HARNESS_SUPPLEMENT_BEGIN@);
    lemma_absent_join(a, b, HARNESS_SUPPLEMENT_END@);
}

/// Two clear texts with a separator between them are clear.
proof fn lemma_clear_between(a: Seq<char>, separator: Seq<char>, b: Seq<char>)
    requires
        clear(a),
        clear(b),
        separator.len() > 0,
        forall|i: int| 0 <= i < separator.len() ==> #[trigger] separator[i] != '<',
        outside(separator[0]),
        outside(separator.last()) || b.len() == 0 || outside(b[0]),
    ensures
        clear(a + separator + b),
{
    lemma_unopened_is_clear(separator);
    lemma_clear_join(a, separator);
    lemma_clear_join(a + separator, b);
}

/// Whether a text carries neither marker and ends its last line.
spec fn whole_lines(s: Seq<char>) -> bool {
    clear(s) && (s.len() == 0 || s.last() == '\n')
}

proof fn lemma_lines_join(a: Seq<char>, b: Seq<char>)
    requires
        whole_lines(a),
        whole_lines(b),
    ensures
        whole_lines(a + b),
{
    lemma_clear_join(a, b);
    if b.len() == 0 {
        assert(a + b =~= a);
    }
}

proof fn lemma_checked_text_is_clear(s: Seq<char>)
    requires
        !holds_marker(s),
    ensures
        clear(s),
{
    reveal(absent);
    assert forall|at: int| !#[trigger] occurs_at(s, HARNESS_SUPPLEMENT_BEGIN@, at) by {
        if occurs_at(s, HARNESS_SUPPLEMENT_BEGIN@, at) {
            assert(contains_text(s, HARNESS_SUPPLEMENT_BEGIN@));
        }
    }
    assert forall|at: int| !#[trigger] occurs_at(s, HARNESS_SUPPLEMENT_END@, at) by {
        if occurs_at(s, HARNESS_SUPPLEMENT_END@, at) {
            assert(contains_text(s, HARNESS_SUPPLEMENT_END@));
        }
    }
}

proof fn lemma_number_is_clear(n: nat)
    ensures
        clear(decimal(n)),
        decimal(n).len() > 0,
        outside(decimal(n)[0]),
        outside(decimal(n).last()),
{
    lemma_decimal_digits(n);
    let s = decimal(n);
    assert forall|i: int| 0 <= i < s.len() implies #[trigger] s[i] != '<' by {
        assert(is_digit(s[i]));
    }
    lemma_unopened_is_clear(s);
    assert(is_digit(s[0]));
    assert(is_digit(s[s.len() - 1]));
}

proof fn lemma_argument_lines(
    keys: Seq<Seq<char>>,
    arguments: Map<Seq<char>, Seq<char>>,
)
    requires
        forall|i: int|
            0 <= i < keys.len() ==> argument_fault(#[trigger] keys[i], arguments[keys[i]]) is None,
    ensures
        whole_lines(argument_lines(keys, arguments)),
    decreases keys.len(),
{
    if keys.len() == 0 {
        lemma_unopened_is_clear(argument_lines(keys, arguments));
    } else {
        let rest = keys.drop_last();
        assert forall|i: int| 0 <= i < rest.len() implies argument_fault(
            #[trigger] rest[i],
            arguments[rest[i]],
        ) is None by {
            assert(rest[i] == keys[i]);
        }
        lemma_argument_lines(rest, arguments);
        let name = keys.last();
        let doc = arguments[name];
        assert(argument_fault(keys[keys.len() - 1], arguments[keys[keys.len() - 1]]) is None);
        assert forall|i: int| 0 <= i < name.len() implies #[trigger] name[i] != '<' by {}
        lemma_unopened_is_clear(name);
        lemma_checked_text_is_clear(doc);
        reveal_strlit("- `");
        reveal_strlit("`: ");
        reveal_strlit("\n");
        let p0 = "- `"@;
        lemma_unopened_is_clear(p0);
        let p1 = p0 + name;
        lemma_clear_join(p0, name);
        let p2 = p1 + "`: "@ + doc;
        lemma_clear_between(p1, "`: "@, doc);
        let p3 = p2 + "\n"@;
        lemma_unopened_is_clear("\n"@);
        lemma_clear_join(p2, "\n"@);
        assert(p3.last() == '\n');
        lemma_lines_join(argument_lines(rest, arguments), p3);
    }
}

proof fn lemma_skill_lines(skill: SkillView)
    requires
        skill.fault() is None,
    ensures
        whole_lines(skill_lines(skill)),
{
    let keys = sorted_keys(skill.arguments.dom());
    assert forall|i: int| 0 <= i < keys.len() implies argument_fault(
        #[trigger] keys[i],
        skill.arguments[keys[i]],
    ) is None by {
        lemma_arguments_checked(keys, skill.arguments, i);
    }
    lemma_argument_lines(keys, skill.arguments);
    lemma_checked_text_is_clear(skill.invocation);
    reveal_strlit("Invocation: `");
    reveal_strlit("`\n");
    let p0 = "Invocation: `"@;
    lemma_unopened_is_clear(p0);
    let p1 = p0 + skill.invocation;
    lemma_clear_join(p0, skill.invocation);
    let p2 = p1 + "`\n"@;
    lemma_unopened_is_clear("`\n"@);
    lemma_clear_join(p1, "`\n"@);
    assert(p2.last() == '\n');
    lemma_lines_join(p2, argument_lines(keys, skill.arguments));
}

proof fn lemma_entry_block(entry: EntryView, session: bool)
    requires
        entry.fault() is None,
    ensures
        whole_lines(entry_block(entry, origin_label(session))),
{
    let scope = origin_label(session);
    reveal_strlit("session");
    reveal_strlit("global");
    lemma_unopened_is_clear(scope);
    assert forall|i: int| 0 <= i < entry.id.len() implies #[trigger] entry.id[i] != '<' by {}
    lemma_unopened_is_clear(entry.id);
    lemma_checked_text_is_clear(entry.title);
    lemma_checked_text_is_clear(entry.content);
    lemma_number_is_clear(entry.version as nat);
    reveal_strlit("\n### ");
    reveal_strlit(" (");
    reveal_strlit(" · ");
    reveal_strlit(" · v");
    reveal_strlit(")\n");
    reveal_strlit("\n");
    let p0 = "\n### "@;
    lemma_unopened_is_clear(p0);
    let p1 = p0 + entry.title;
    lemma_clear_join(p0, entry.title);
    let p2 = p1 + " ("@ + scope;
    lemma_clear_between(p1, " ("@, scope);
    let p3 = p2 + " · "@ + entry.id;
    lemma_clear_between(p2, " · "@, entry.id);
    let number = decimal(entry.version as nat);
    let p4 = p3 + " · v"@ + number;
    lemma_clear_between(p3, " · v"@, number);
    let p5 = p4 + ")\n"@ + entry.content;
    lemma_clear_between(p4, ")\n"@, entry.content);
    let p6 = p5 + "\n"@;
    lemma_unopened_is_clear("\n"@);
    lemma_clear_join(p5, "\n"@);
    assert(p6.last() == '\n');
    match entry.skill {
        Some(skill) => {
            lemma_skill_lines(skill);
            lemma_lines_join(p6, skill_lines(skill));
        },
        None => {
            assert(p6 + Seq::<char>::empty() =~= p6);
        },
    }
}

proof fn lemma_kind_blocks(
    kind: HarnessEntryKind,
    keys: Seq<Seq<char>>,
    merged: Map<Seq<char>, MergedView>,
)
    requires
        forall|i: int| 0 <= i < keys.len() ==> merged[#[trigger] keys[i]].entry.fault() is None,
    ensures
        whole_lines(kind_blocks(kind, keys, merged)),
    decreases keys.len(),
{
    if keys.len() == 0 {
        lemma_unopened_is_clear(kind_blocks(kind, keys, merged));
    } else {
        let rest = keys.drop_last();
        assert forall|i: int| 0 <= i < rest.len() implies merged[
            #[trigger] rest[i]
        ].entry.fault() is None by {
            assert(rest[i] == keys[i]);
        }
        lemma_kind_blocks(kind, rest, merged);
        let m = merged[keys.last()];
        assert(merged[keys[keys.len() - 1]].entry.fault() is None);
        if m.entry.kind == kind {
            lemma_entry_block(m.entry, m.session);
            lemma_lines_join(
                kind_blocks(kind, rest, merged),
                entry_block(m.entry, origin_label(m.session)),
            );
        } else {
            assert(kind_blocks(kind, rest, merged) + Seq::<char>::empty() =~= kind_blocks(
                kind,
                rest,
                merged,
            ));
        }
    }
}

proof fn lemma_kind_section(
    kind: HarnessEntryKind,
    keys: Seq<Seq<char>>,
    merged: Map<Seq<char>, MergedView>,
)
    requires
        forall|i: int| 0 <= i < keys.len() ==> merged[#[trigger] keys[i]].entry.fault() is None,
    ensures
        whole_lines(kind_section(kind, keys, merged)),
{
    if has_kind(kind, keys, merged) {
        reveal_strlit("\n## ");
        reveal_strlit("\n");
        reveal_strlit("Prompt Notes");
        reveal_strlit("Memories");
        reveal_strlit("Skills");
        reveal_strlit("Subagents");
        lemma_unopened_is_clear(kind.heading());
        let p0 = "\n## "@;
        lemma_unopened_is_clear(p0);
        let p1 = p0 + kind.heading();
        lemma_clear_join(p0, kind.heading());
        let p2 = p1 + "\n"@;
        lemma_unopened_is_clear("\n"@);
        lemma_clear_join(p1, "\n"@);
        assert(p2.last() == '\n');
        lemma_kind_blocks(kind, keys, merged);
        lemma_lines_join(p2, kind_blocks(kind, keys, merged));
    } else {
        lemma_unopened_is_clear(Seq::<char>::empty());
    }
}

proof fn lemma_history_line(e: EventView)
    requires
        !holds_marker(e.summary),
    ensures
        whole_lines(history_line(e)),
{
    reveal_strlit("- [");
    reveal_strlit(" rev ");
    reveal_strlit("] ");
    reveal_strlit(" (applied ");
    reveal_strlit(", rejected ");
    reveal_strlit(")\n");
    reveal_strlit("global");
    reveal_strlit("session");
    let label = e.scope.label();
    lemma_unopened_is_clear(label);
    lemma_number_is_clear(e.resulting_revision as nat);
    lemma_number_is_clear(e.applied.len());
    lemma_number_is_clear(e.rejected.len());
    lemma_checked_text_is_clear(e.summary);
    let p0 = "- ["@;
    lemma_unopened_is_clear(p0);
    let p1 = p0 + label;
    lemma_clear_join(p0, label);
    let p2 = p1 + " rev "@ + decimal(e.resulting_revision as nat);
    lemma_clear_between(p1, " rev "@, decimal(e.resulting_revision as nat));
    let p3 = p2 + "] "@ + e.summary;
    lemma_clear_between(p2, "] "@, e.summary);
    let p4 = p3 + " (applied "@ + decimal(e.applied.len());
    lemma_clear_between(p3, " (applied "@, decimal(e.applied.len()));
    let p5 = p4 + ", rejected "@ + decimal(e.rejected.len());
    lemma_clear_between(p4, ", rejected "@, decimal(e.rejected.len()));
    let p6 = p5 + ")\n"@;
    lemma_unopened_is_clear(")\n"@);
    lemma_clear_join(p5, ")\n"@);
    assert(p6.last() == '\n');
}

proof fn lemma_history_lines(events: Seq<EventView>)
    requires
        forall|i: int| 0 <= i < events.len() ==> !holds_marker((#[trigger] events[i]).summary),
    ensures
        whole_lines(history_lines(events)),
    decreases events.len(),
{
    if events.len() == 0 {
        lemma_unopened_is_clear(history_lines(events));
    } else {
        let rest = events.drop_last();
        assert forall|i: int| 0 <= i < rest.len() implies !holds_marker(
            (#[trigger] rest[i]).summary,
        ) by {
            assert(rest[i] == events[i]);
        }
        lemma_history_lines(rest);
        assert(!holds_marker(events[events.len() - 1].summary));
        lemma_history_line(events.last());
        lemma_lines_join(history_lines(rest), history_line(events.last()));
    }
}

proof fn lemma_history_section(events: Seq<EventView>)
    requires
        forall|i: int| 0 <= i < events.len() ==> !holds_marker((#[trigger] events[i]).summary),
    ensures
        whole_lines(history_section(events)),
{
    broadcast use vstd::seq_lib::group_to_multiset_ensures;

    let all = newest_first(events);
    let shown = shown_history(events);
    if shown.len() == 0 {
        lemma_unopened_is_clear(Seq::<char>::empty());
    } else {
        law_history_is_newest_first(events);
        assert forall|i: int| 0 <= i < shown.len() implies !holds_marker(
            (#[trigger] shown[i]).summary,
        ) by {
            assert(shown[i] == all[i]);
            assert(all.contains(all[i]));
            assert(all.to_multiset().count(all[i]) > 0);
            assert(events.to_multiset().count(all[i]) > 0);
            assert(events.contains(all[i]));
            let j = choose|j: int| 0 <= j < events.len() && events[j] == all[i];
            assert(!holds_marker(events[j].summary));
        }
        lemma_history_lines(shown);
        reveal_strlit("\n## Recent Refinements\n");
        let head = "\n## Recent Refinements\n"@;
        lemma_unopened_is_clear(head);
        lemma_lines_join(head, history_lines(shown));
    }
}

/// Whether a ledger that takes part has finitely many entries.
pub open spec fn side_finite(state: Option<StateView>) -> bool {
    match state {
        Some(s) => s.entries.dom().finite(),
        None => true,
    }
}

proof fn lemma_side_entry(state: Option<StateView>, k: Seq<char>)
    requires
        side_finite(state),
        state is Some ==> state->Some_0.fault() is None,
        side_entries(state).dom().contains(k),
    ensures
        side_entries(state)[k].fault() is None,
{
    let s = state->Some_0;
    let keys = sorted_keys(s.entries.dom());
    lemma_listing_exists(s.entries.dom());
    assert(keys.contains(k));
    let i = choose|i: int| 0 <= i < keys.len() && keys[i] == k;
    lemma_entries_checked(keys, s.entries, i);
}

proof fn lemma_introduction()
    ensures
        whole_lines(SUPPLEMENT_INTRODUCTION@),
        SUPPLEMENT_INTRODUCTION@.len() > 0,
        SUPPLEMENT_INTRODUCTION@[0] == '\n',
{
    reveal_strlit(
        "\n# Continual Harness State\nThis supplement was produced by validated refinements of earlier work. Follow the prompt notes, treat memories as established facts, and use skills and subagents through their stated contracts.\n",
    );
    lemma_unopened_is_clear(SUPPLEMENT_INTRODUCTION@);
}

proof fn lemma_six_parts(
    a: Seq<char>,
    b: Seq<char>,
    c: Seq<char>,
    d: Seq<char>,
    e: Seq<char>,
    f: Seq<char>,
)
    requires
        whole_lines(a),
        whole_lines(b),
        whole_lines(c),
        whole_lines(d),
        whole_lines(e),
        whole_lines(f),
    ensures
        whole_lines(a + b + c + d + e + f),
{
    lemma_lines_join(a, b);
    lemma_lines_join(a + b, c);
    lemma_lines_join(a + b + c, d);
    lemma_lines_join(a + b + c + d, e);
    lemma_lines_join(a + b + c + d + e, f);
}

proof fn lemma_regroup(
    open: Seq<char>,
    a: Seq<char>,
    b: Seq<char>,
    c: Seq<char>,
    d: Seq<char>,
    e: Seq<char>,
    f: Seq<char>,
    close: Seq<char>,
)
    ensures
        open + a + b + c + d + e + f + close == open + (a + b + c + d + e + f) + close,
{
    assert(open + (a + b) =~= open + a + b);
    assert(open + (a + b + c) =~= open + (a + b) + c);
    assert(open + (a + b + c + d) =~= open + (a + b + c) + d);
    assert(open + (a + b + c + d + e) =~= open + (a + b + c + d) + e);
    assert(open + (a + b + c + d + e + f) =~= open + (a + b + c + d + e) + f);
}

/// The entries of a scope pair are all valid.
proof fn lemma_merged_entries(global: Option<StateView>, session: Option<StateView>)
    requires
        side_finite(global),
        side_finite(session),
        global is Some ==> global->Some_0.fault() is None,
        session is Some ==> session->Some_0.fault() is None,
    ensures
        ({
            let merged = merged_entries(side_entries(global), side_entries(session));
            let keys = sorted_keys(merged.dom());
            forall|i: int| 0 <= i < keys.len() ==> merged[#[trigger] keys[i]].entry.fault() is None
        }),
{
    let left = side_entries(global);
    let right = side_entries(session);
    let merged = merged_entries(left, right);
    let keys = sorted_keys(merged.dom());
    assert(merged.dom() =~= left.dom().union(right.dom()));
    assert(merged.dom().finite());
    lemma_listing_exists(merged.dom());
    assert forall|i: int| 0 <= i < keys.len() implies merged[
        #[trigger] keys[i]
    ].entry.fault() is None by {
        let k = keys[i];
        assert(keys.contains(k));
        assert(merged.dom().contains(k));
        if right.dom().contains(k) {
            lemma_side_entry(session, k);
            assert(merged[k].entry == right[k]);
        } else {
            lemma_side_entry(global, k);
            assert(merged[k].entry == left[k]);
        }
    }
}

/// The section between its markers: whole lines, and no marker in them.
proof fn lemma_section(
    global: Option<StateView>,
    session: Option<StateView>,
    events: Seq<EventView>,
) -> (middle: Seq<char>)
    requires
        side_finite(global),
        side_finite(session),
        render_outcome(global, session, events) matches Ok(Some(_)),
        forall|i: int| 0 <= i < events.len() ==> !holds_marker((#[trigger] events[i]).summary),
    ensures
        render_outcome(global, session, events) == Ok::<Option<Seq<char>>, Refusal>(
            Some(HARNESS_SUPPLEMENT_BEGIN@ + middle + HARNESS_SUPPLEMENT_END@),
        ),
        whole_lines(middle),
        middle.len() > 0,
        middle[0] == '\n',
{
    let merged = merged_entries(side_entries(global), side_entries(session));
    let keys = sorted_keys(merged.dom());
    lemma_merged_entries(global, session);
    let m0 = SUPPLEMENT_INTRODUCTION@;
    lemma_introduction();
    let k1 = kind_section(HarnessEntryKind::Prompt, keys, merged);
    let k2 = kind_section(HarnessEntryKind::Memory, keys, merged);
    let k3 = kind_section(HarnessEntryKind::Skill, keys, merged);
    let k4 = kind_section(HarnessEntryKind::Subagent, keys, merged);
    let h = history_section(events);
    lemma_kind_section(HarnessEntryKind::Prompt, keys, merged);
    lemma_kind_section(HarnessEntryKind::Memory, keys, merged);
    lemma_kind_section(HarnessEntryKind::Skill, keys, merged);
    lemma_kind_section(HarnessEntryKind::Subagent, keys, merged);
    lemma_history_section(events);
    lemma_six_parts(m0, k1, k2, k3, k4, h);
    let middle = m0 + k1 + k2 + k3 + k4 + h;
    lemma_regroup(
        HARNESS_SUPPLEMENT_BEGIN@,
        m0,
        k1,
        k2,
        k3,
        k4,
        h,
        HARNESS_SUPPLEMENT_END@,
    );
    middle
}

/// Where a marker stands in a marked section: nowhere but in the markers themselves.
proof fn lemma_marked(middle: Seq<char>, at: int)
    requires
        whole_lines(middle),
        middle.len() > 0,
        middle[0] == '\n',
    ensures
        ({
            let open = HARNESS_SUPPLEMENT_BEGIN@;
            let close = HARNESS_SUPPLEMENT_END@;
            let section = open + middle + close;
            &&& occurs_at(section, open, at) <==> at == 0
            &&& occurs_at(section, close, at) <==> at == section.len() - close.len()
        }),
{
    reveal(absent);
    lemma_markers();
    reveal_strlit("<continual_harness>");
    reveal_strlit("</continual_harness>");
    let open = HARNESS_SUPPLEMENT_BEGIN@;
    let close = HARNESS_SUPPLEMENT_END@;
    let section = open + middle + close;
    let m = middle.len() as int;
    assert(section.subrange(0, 19) =~= open);
    assert(section.subrange(19 + m, 39 + m) =~= close);
    assert(section[19] == '\n');
    assert(section[18 + m] == '\n');
    assert(outside('\n'));
    if occurs_at(section, open, at) {
        let part = section.subrange(at, at + 19);
        if at < 19 && at > 0 {
            assert(part[19 - at] == section[19]);
        } else if 19 <= at < 19 + m && at + 19 > 19 + m {
            assert(part[18 + m - at] == section[18 + m]);
        } else if 19 <= at < 19 + m {
            assert(middle.subrange(at - 19, at) =~= part);
            assert(occurs_at(middle, open, at - 19));
        } else if at > 0 {
            assert(part[0] == section[at]);
            assert(part[1] == section[at + 1]);
            assert(section[at] == close[at - 19 - m]);
            assert(section[at + 1] == close[at + 1 - 19 - m]);
        }
    }
    if occurs_at(section, close, at) {
        let part = section.subrange(at, at + 20);
        if at < 19 {
            assert(part[19 - at] == section[19]);
        } else if 19 <= at < 19 + m && at + 20 > 19 + m {
            assert(part[18 + m - at] == section[18 + m]);
        } else if 19 <= at < 19 + m {
            assert(middle.subrange(at - 19, at + 1) =~= part);
            assert(occurs_at(middle, close, at - 19));
        }
    }
}

/// A rendered section holds each marker exactly once: the begin marker at its beginning and the end
/// marker at its end. No entry and no event can bring one in.
pub proof fn law_sections_hold_each_marker_once(
    global: Option<StateView>,
    session: Option<StateView>,
    events: Seq<EventView>,
    section: Seq<char>,
)
    requires
        side_finite(global),
        side_finite(session),
        forall|i: int| 0 <= i < events.len() ==> !holds_marker((#[trigger] events[i]).summary),
        render_outcome(global, session, events) == Ok::<Option<Seq<char>>, Refusal>(
            Some(section),
        ),
    ensures
        forall|at: int|
            #[trigger] occurs_at(section, HARNESS_SUPPLEMENT_BEGIN@, at) <==> at == 0,
        forall|at: int|
            #[trigger] occurs_at(section, HARNESS_SUPPLEMENT_END@, at) <==> at == section.len()
                - HARNESS_SUPPLEMENT_END@.len(),
{
    let middle = lemma_section(global, session, events);
    assert forall|at: int| #[trigger]
        occurs_at(section, HARNESS_SUPPLEMENT_BEGIN@, at) <==> at == 0 by {
        lemma_marked(middle, at);
    }
    assert forall|at: int| #[trigger]
        occurs_at(section, HARNESS_SUPPLEMENT_END@, at) <==> at == section.len()
            - HARNESS_SUPPLEMENT_END@.len() by {
        lemma_marked(middle, at);
    }
}

/// The summary of a valid event holds no marker.
pub proof fn law_valid_events_hold_no_marker(e: EventView)
    requires
        e.fault() is None,
    ensures
        !holds_marker(e.summary),
{
}

proof fn lemma_trim_end_prefix(s: Seq<char>)
    ensures
        trim_end(s).len() <= s.len(),
        trim_end(s) == s.take(trim_end(s).len() as int),
        trim_end(trim_end(s)) == trim_end(s),
    decreases s.len(),
{
    if s.len() > 0 && is_whitespace(s.last()) {
        let rest = s.drop_last();
        lemma_trim_end_prefix(rest);
        let n = trim_end(s).len() as int;
        assert(rest.take(n) =~= s.take(n));
    } else {
        assert(s.take(s.len() as int) =~= s);
    }
}

proof fn lemma_trim_start_suffix(s: Seq<char>)
    ensures
        trim_start(s).len() <= s.len(),
        trim_start(s) == s.skip(s.len() - trim_start(s).len()),
    decreases s.len(),
{
    if s.len() > 0 && is_whitespace(s[0]) {
        let rest = s.drop_first();
        lemma_trim_start_suffix(rest);
        let n = trim_start(s).len() as int;
        assert(rest.skip(rest.len() - n) =~= s.skip(s.len() - n));
    } else {
        assert(s.skip(0) =~= s);
    }
}

proof fn lemma_absent_part(s: Seq<char>, from: int, to: int, marker: Seq<char>)
    requires
        absent(s, marker),
        0 <= from <= to <= s.len(),
    ensures
        absent(s.subrange(from, to), marker),
{
    reveal(absent);
    let part = s.subrange(from, to);
    assert forall|at: int| !#[trigger] occurs_at(part, marker, at) by {
        if occurs_at(part, marker, at) {
            assert(s.subrange(from + at, from + at + marker.len() as int) =~= part.subrange(
                at,
                at + marker.len() as int,
            ));
            assert(occurs_at(s, marker, from + at));
        }
    }
}

/// What stripping leaves holds neither marker.
proof fn lemma_stripped_holds_no_marker(base: Seq<char>, marker: Seq<char>)
    requires
        marker == HARNESS_SUPPLEMENT_BEGIN@ || marker == HARNESS_SUPPLEMENT_END@,
    ensures
        strip_outcome(base) matches Ok(stripped) ==> absent(stripped, marker),
{
    reveal(absent);
    lemma_markers();
    let open = HARNESS_SUPPLEMENT_BEGIN@;
    if strip_outcome(base) is Ok {
        let stripped = strip_outcome(base)->Ok_0;
        if !contains_text(base, open) {
            assert forall|at: int| !#[trigger] occurs_at(stripped, marker, at) by {}
        } else {
            lemma_first_exists(base, open, 0);
            let begin = choose|at: int| first_from(base, open, 0, at);
            let body = begin + open.len();
            lemma_first_exists(base, HARNESS_SUPPLEMENT_END@, body);
            let end = choose|at: int| first_from(base, HARNESS_SUPPLEMENT_END@, body, at);
            let head = base.take(begin);
            let tail = base.skip(end + HARNESS_SUPPLEMENT_END@.len());
            assert forall|at: int| !#[trigger] occurs_at(head, marker, at) by {
                if occurs_at(head, marker, at) && marker == open {
                    assert(base.subrange(at, at + marker.len() as int) =~= head.subrange(
                        at,
                        at + marker.len() as int,
                    ));
                    assert(occurs_at(base, marker, at));
                }
            }
            lemma_trim_end_prefix(head);
            let h = trim_end(head);
            assert(h =~= head.subrange(0, h.len() as int));
            lemma_absent_part(head, 0, h.len() as int, marker);
            lemma_checked_text_is_clear(tail);
            lemma_trim_start_suffix(tail);
            let t = trim_start(tail);
            assert(t =~= tail.subrange(tail.len() - t.len(), tail.len() as int));
            lemma_absent_part(tail, tail.len() - t.len(), tail.len() as int, marker);
            assert(stripped == joined_parts(h, t));
            reveal_strlit("\n\n");
            lemma_unopened_is_clear("\n\n"@);
            lemma_absent_join(h, "\n\n"@, marker);
            lemma_absent_join(h + "\n\n"@, t, marker);
        }
    }
}

/// Where a text occurs from some position on, it has a first occurrence.
proof fn lemma_first_exists(hay: Seq<char>, needle: Seq<char>, from: int)
    requires
        exists|at: int| from <= at && occurs_at(hay, needle, at),
    ensures
        exists|at: int| first_from(hay, needle, from, at),
{
    let at = choose|at: int| from <= at && occurs_at(hay, needle, at);
    lemma_first_before(hay, needle, from, at);
}

proof fn lemma_first_before(hay: Seq<char>, needle: Seq<char>, from: int, at: int)
    requires
        from <= at,
        occurs_at(hay, needle, at),
    ensures
        exists|first: int| first_from(hay, needle, from, first),
    decreases at - from,
{
    if exists|j: int| from <= j < at && #[trigger] occurs_at(hay, needle, j) {
        let j = choose|j: int| from <= j < at && #[trigger] occurs_at(hay, needle, j);
        lemma_first_before(hay, needle, from, j);
    } else {
        assert(first_from(hay, needle, from, at));
    }
}

/// A text behind another begins where no marker is open.
proof fn lemma_first_behind(head: Seq<char>, marker: Seq<char>, rest: Seq<char>)
    requires
        absent(head, marker),
        head.len() == 0 || outside(head.last()),
        marker.len() > 0,
        forall|i: int| 0 <= i < marker.len() ==> !outside(#[trigger] marker[i]),
    ensures
        first_from(head + marker + rest, marker, 0, head.len() as int),
{
    reveal(absent);
    let s = head + marker + rest;
    let begin = head.len() as int;
    let n = marker.len() as int;
    assert(s.subrange(begin, begin + n) =~= marker);
    assert forall|j: int| 0 <= j && #[trigger] occurs_at(s, marker, j) implies begin <= j by {
        if j < begin {
            let part = s.subrange(j, j + n);
            if j + n <= begin {
                assert(head.subrange(j, j + n) =~= part);
                assert(occurs_at(head, marker, j));
            } else {
                let k = begin - 1 - j;
                assert(part[k] == head.last());
                assert(!outside(marker[k]));
            }
        }
    }
}

proof fn lemma_first_shifted(head: Seq<char>, rest: Seq<char>, marker: Seq<char>, at: int)
    requires
        first_from(rest, marker, 0, at),
    ensures
        first_from(head + rest, marker, head.len() as int, head.len() + at),
{
    let s = head + rest;
    let n = marker.len() as int;
    let shift = head.len() as int;
    assert(s.subrange(shift + at, shift + at + n) =~= rest.subrange(at, at + n));
    assert forall|j: int| shift <= j && #[trigger] occurs_at(s, marker, j) implies shift + at
        <= j by {
        assert(s.subrange(j, j + n) =~= rest.subrange(j - shift, j - shift + n));
        assert(occurs_at(rest, marker, j - shift));
    }
}

proof fn lemma_trim_gap(kept: Seq<char>)
    requires
        trim_end(kept) == kept,
    ensures
        trim_end(kept + "\n\n"@) == kept,
{
    reveal_strlit("\n\n");
    let head = kept + "\n\n"@;
    assert(head.last() == '\n');
    assert(head.drop_last() =~= kept.push('\n'));
    assert(kept.push('\n').drop_last() =~= kept);
    assert(trim_end(head) == trim_end(kept.push('\n')));
    assert(trim_end(kept.push('\n')) == trim_end(kept));
}

/// Stripping undoes appending: a prompt that ends in a section is left as it was without it.
proof fn lemma_strip_appended(kept: Seq<char>, middle: Seq<char>)
    requires
        absent(kept, HARNESS_SUPPLEMENT_BEGIN@),
        absent(kept, HARNESS_SUPPLEMENT_END@),
        trim_end(kept) == kept,
        whole_lines(middle),
        middle.len() > 0,
    ensures
        strip_outcome(
            next_prompt(
                kept,
                Some(HARNESS_SUPPLEMENT_BEGIN@ + middle + HARNESS_SUPPLEMENT_END@),
            ),
        ) == Ok::<Seq<char>, Refusal>(kept),
{
    lemma_markers();
    let open = HARNESS_SUPPLEMENT_BEGIN@;
    let close = HARNESS_SUPPLEMENT_END@;
    let section = open + middle + close;
    reveal_strlit("\n\n");
    let gap = if kept.len() == 0 {
        Seq::<char>::empty()
    } else {
        "\n\n"@
    };
    let head = kept + gap;
    let prompt = next_prompt(kept, Some(section));
    let begin = head.len() as int;
    let body = begin + open.len();
    let end = body + middle.len();
    lemma_unopened_is_clear(gap);
    lemma_absent_join(kept, gap, open);
    lemma_absent_join(kept, gap, close);
    if kept.len() == 0 {
        assert(head =~= kept);
    } else {
        lemma_trim_gap(kept);
    }
    lemma_first_behind(head, open, middle + close);
    assert(prompt =~= head + open + (middle + close));
    assert(contains_text(prompt, open)) by {
        assert(occurs_at(prompt, open, begin));
    }
    let chosen = choose|at: int| first_from(prompt, open, 0, at);
    assert(chosen == begin) by {
        assert(occurs_at(prompt, open, chosen));
        assert(occurs_at(prompt, open, begin));
    }
    lemma_first_behind(middle, close, Seq::empty());
    assert(middle + close + Seq::<char>::empty() =~= middle + close);
    lemma_first_shifted(head + open, middle + close, close, middle.len() as int);
    assert(first_from(prompt, close, body, end));
    let chosen_end = choose|at: int| first_from(prompt, close, body, at);
    assert(chosen_end == end) by {
        assert(occurs_at(prompt, close, chosen_end));
        assert(occurs_at(prompt, close, end));
    }
    let remainder = prompt.skip(end + close.len());
    assert(remainder =~= Seq::<char>::empty());
    assert(!holds_marker(remainder)) by {
        assert forall|at: int| !occurs_at(remainder, open, at) by {}
        assert forall|at: int| !occurs_at(remainder, close, at) by {}
    }
    assert(prompt.take(begin) =~= head);
    assert(!contains_text(head, close)) by {
        reveal(absent);
    }
    assert(trim_end(head) == kept);
    assert(stripped_at(prompt, begin, end) == Ok::<Seq<char>, Refusal>(kept));
}

/// Evolving settles: a prompt that was derived from the ledgers is what a second derivation from
/// them gives, and stripping it gives back what its base is without a section. Where the ledgers
/// hold no entry nothing is appended, and a prompt may then be left with nothing at all; that one
/// is left out.
pub proof fn law_evolving_twice_changes_nothing(
    base: Seq<char>,
    global: Option<StateView>,
    session: Option<StateView>,
    events: Seq<EventView>,
    next: Seq<char>,
)
    requires
        side_finite(global),
        side_finite(session),
        forall|i: int| 0 <= i < events.len() ==> !holds_marker((#[trigger] events[i]).summary),
        evolved_prompt(base, global, session, events) == Ok::<Option<Seq<char>>, Refusal>(
            Some(next),
        ),
        next.len() > 0,
    ensures
        evolved_prompt(next, global, session, events) == Ok::<Option<Seq<char>>, Refusal>(None),
        strip_outcome(base) matches Ok(stripped) && strip_outcome(next) == Ok::<
            Seq<char>,
            Refusal,
        >(trim_end(stripped)),
{
    reveal(absent);
    lemma_markers();
    let stripped = strip_outcome(base)->Ok_0;
    let kept = trim_end(stripped);
    lemma_stripped_holds_no_marker(base, HARNESS_SUPPLEMENT_BEGIN@);
    lemma_stripped_holds_no_marker(base, HARNESS_SUPPLEMENT_END@);
    lemma_trim_end_prefix(stripped);
    assert(kept =~= stripped.subrange(0, kept.len() as int));
    lemma_absent_part(stripped, 0, kept.len() as int, HARNESS_SUPPLEMENT_BEGIN@);
    lemma_absent_part(stripped, 0, kept.len() as int, HARNESS_SUPPLEMENT_END@);
    match render_outcome(global, session, events) {
        Ok(Some(section)) => {
            let middle = lemma_section(global, session, events);
            lemma_strip_appended(kept, middle);
            let at = next.len() - section.len();
            assert(section[0] == '<');
            assert(next[at] == section[0]);
            assert(!is_whitespace(next[at]));
        },
        _ => {
            assert(next == kept);
            assert(strip_outcome(next) == Ok::<Seq<char>, Refusal>(next)) by {
                if contains_text(next, HARNESS_SUPPLEMENT_BEGIN@) {
                    let at = choose|at: int| occurs_at(next, HARNESS_SUPPLEMENT_BEGIN@, at);
                    assert(occurs_at(kept, HARNESS_SUPPLEMENT_BEGIN@, at));
                }
            }
            if is_whitespace(next.last()) {
                lemma_trim_end_prefix(next.drop_last());
            }
            assert(!is_whitespace(next[next.len() - 1]));
        },
    }
}

/// Deriving a patch settles: the patch of a base snapshot is based on its address and changes the
/// system prompt alone, it cites the events at the head of the history, and the snapshot that it
/// gives needs no further patch from the same ledgers and events. A patch that would leave no
/// prompt at all gives no snapshot, and is left out.
pub proof fn law_patches_settle(
    base: SnapshotView,
    global: Option<StateView>,
    session: Option<StateView>,
    events: Seq<EventView>,
    patch: PatchView,
)
    requires
        side_finite(global),
        side_finite(session),
        forall|i: int| 0 <= i < events.len() ==> !holds_marker((#[trigger] events[i]).summary),
        evolution_outcome(base, global, session, events) == Ok::<Option<PatchView>, Refusal>(
            Some(patch),
        ),
        patch.system_prompt.len() > 0,
    ensures
        patch.base_digest == base.digest,
        patch.evidence == cited_evidence(events),
        patched(base, patch).fault() is None,
        patched(base, patch).rules == base.rules,
        patched(base, patch).system_prompt != base.system_prompt,
        evolution_outcome(patched(base, patch), global, session, events) == Ok::<
            Option<PatchView>,
            Refusal,
        >(None),
{
    law_evolving_twice_changes_nothing(
        base.system_prompt,
        global,
        session,
        events,
        patch.system_prompt,
    );
}

/// Whether a marker opens with a character that stands nowhere else in it.
spec fn opens_once(marker: Seq<char>) -> bool {
    &&& marker.len() > 0
    &&& marker[0] == '<'
    &&& forall|i: int| 0 < i < marker.len() ==> #[trigger] marker[i] != '<'
}

proof fn lemma_markers_open_once()
    ensures
        opens_once(HARNESS_SUPPLEMENT_BEGIN@),
        opens_once(HARNESS_SUPPLEMENT_END@),
        HARNESS_SUPPLEMENT_BEGIN@.len() == 19,
        HARNESS_SUPPLEMENT_END@.len() == 20,
{
    reveal_strlit("<continual_harness>");
    reveal_strlit("</continual_harness>");
}

/// A marker behind a text that does not hold it is the first one there, whatever the text ends in.
proof fn lemma_first_behind_text(head: Seq<char>, marker: Seq<char>, rest: Seq<char>)
    requires
        !contains_text(head, marker),
        opens_once(marker),
    ensures
        first_from(head + marker + rest, marker, 0, head.len() as int),
{
    let s = head + marker + rest;
    let begin = head.len() as int;
    let n = marker.len() as int;
    assert(s.subrange(begin, begin + n) =~= marker);
    assert forall|j: int| 0 <= j && #[trigger] occurs_at(s, marker, j) implies begin <= j by {
        if j < begin {
            let part = s.subrange(j, j + n);
            if j + n <= begin {
                assert(head.subrange(j, j + n) =~= part);
                assert(occurs_at(head, marker, j));
            } else {
                let k = begin - j;
                assert(part[k] == s[begin]);
                assert(s[begin] == marker[0]);
                assert(marker[k] != '<');
            }
        }
    }
}

/// Stripping takes out one section with its markers and keeps what stands around it: the text
/// before without its trailing whitespace and the text behind without its leading whitespace, with
/// a blank line between them where both are left. A marker that is left behind the section is
/// refused.
#[verifier::spinoff_prover]
#[verifier::rlimit(40)]
pub proof fn law_strip_keeps_what_stands_around(
    head: Seq<char>,
    middle: Seq<char>,
    tail: Seq<char>,
)
    requires
        !holds_marker(head),
        !contains_text(middle, HARNESS_SUPPLEMENT_END@),
    ensures
        ({
            let prompt = head + HARNESS_SUPPLEMENT_BEGIN@ + middle + HARNESS_SUPPLEMENT_END@ + tail;
            let before = trim_end(head);
            let behind = trim_start(tail);
            let answer = strip_outcome(prompt);
            &&& answer is Ok <==> !holds_marker(tail)
            &&& answer is Ok && behind.len() == 0 ==> answer->Ok_0 == before
            &&& answer is Ok && before.len() == 0 ==> answer->Ok_0 == behind
            &&& answer is Ok && before.len() > 0 && behind.len() > 0 ==> answer->Ok_0 == before
                + "\n\n"@ + behind
        }),
{
    lemma_markers_open_once();
    let open = HARNESS_SUPPLEMENT_BEGIN@;
    let close = HARNESS_SUPPLEMENT_END@;
    let prompt = head + open + middle + close + tail;
    let begin = head.len() as int;
    let body = begin + open.len();
    let end = body + middle.len();
    lemma_first_behind_text(head, open, middle + close + tail);
    assert(prompt =~= head + open + (middle + close + tail));
    assert(contains_text(prompt, open)) by {
        assert(occurs_at(prompt, open, begin));
    }
    let chosen = choose|at: int| first_from(prompt, open, 0, at);
    assert(chosen == begin) by {
        assert(occurs_at(prompt, open, chosen));
        assert(occurs_at(prompt, open, begin));
    }
    lemma_first_behind_text(middle, close, tail);
    lemma_first_shifted(head + open, middle + close + tail, close, middle.len() as int);
    assert(first_from(prompt, close, body, end));
    let chosen_end = choose|at: int| first_from(prompt, close, body, at);
    assert(chosen_end == end) by {
        assert(occurs_at(prompt, close, chosen_end));
        assert(occurs_at(prompt, close, end));
    }
    assert(prompt.skip(end + close.len()) =~= tail);
    assert(prompt.take(begin) =~= head);
    assert(strip_outcome(prompt) == stripped_at(prompt, begin, end));
    let before = trim_end(head);
    let behind = trim_start(tail);
    if before.len() == 0 && behind.len() == 0 {
        assert(before =~= behind);
    }
}

/// A marker without its partner is refused: an end marker with no begin marker before it, and a
/// begin marker with no end marker behind it.
pub proof fn law_single_markers_are_refused(head: Seq<char>, tail: Seq<char>)
    requires
        !contains_text(head, HARNESS_SUPPLEMENT_BEGIN@),
    ensures
        contains_text(head, HARNESS_SUPPLEMENT_END@) ==> strip_outcome(head) is Err
            && strip_outcome(head + HARNESS_SUPPLEMENT_BEGIN@ + tail) is Err,
        !contains_text(tail, HARNESS_SUPPLEMENT_END@) ==> strip_outcome(
            head + HARNESS_SUPPLEMENT_BEGIN@ + tail,
        ) is Err,
{
    lemma_markers_open_once();
    let open = HARNESS_SUPPLEMENT_BEGIN@;
    let close = HARNESS_SUPPLEMENT_END@;
    let prompt = head + open + tail;
    let begin = head.len() as int;
    lemma_first_behind_text(head, open, tail);
    assert(occurs_at(prompt, open, begin));
    let chosen = choose|at: int| first_from(prompt, open, 0, at);
    assert(chosen == begin) by {
        assert(occurs_at(prompt, open, chosen));
    }
    assert(prompt.take(begin) =~= head);
    if !contains_text(tail, close) {
        assert forall|at: int| begin + open.len() <= at implies !occurs_at(prompt, close, at) by {
            if occurs_at(prompt, close, at) {
                let from = at - begin - open.len();
                assert(prompt.subrange(at, at + close.len()) =~= tail.subrange(
                    from,
                    from + close.len(),
                ));
                assert(occurs_at(tail, close, from));
            }
        }
    }
}

/// A patch of a base snapshot carries the base's prompt without its section, and behind it the
/// section that the ledgers give, where they give one. It cites the first events of the history, in
/// their order, up to the greatest number of citations.
pub proof fn law_patches_carry_the_section(
    base: SnapshotView,
    global: Option<StateView>,
    session: Option<StateView>,
    events: Seq<EventView>,
    patch: PatchView,
)
    requires
        evolution_outcome(base, global, session, events) == Ok::<Option<PatchView>, Refusal>(
            Some(patch),
        ),
    ensures
        ({
            let kept = trim_end(strip_outcome(base.system_prompt)->Ok_0);
            let section = render_outcome(global, session, events)->Ok_0;
            &&& strip_outcome(base.system_prompt) is Ok
            &&& render_outcome(global, session, events) is Ok
            &&& section is None ==> patch.system_prompt == kept
            &&& section is Some && kept.len() == 0 ==> patch.system_prompt == section->Some_0
            &&& section is Some && kept.len() > 0 ==> patch.system_prompt == kept + "\n\n"@
                + section->Some_0
            &&& patch.base_digest == base.digest
            &&& patch.evidence.len() <= events.len()
            &&& patch.evidence.len() == events.len() || patch.evidence.len()
                == MAX_HARNESS_EVIDENCE_REFS
            &&& patch.evidence.len() <= MAX_HARNESS_EVIDENCE_REFS
            &&& forall|i: int|
                0 <= i < patch.evidence.len() ==> (#[trigger] patch.evidence[i]).reference
                    == events[i].event_id && patch.evidence[i].kind is Refinement
        }),
{
}

/// A patch is needed exactly where the prompt is not already what the ledgers make of it: the base
/// without its section, with the section that they give.
pub proof fn law_patches_are_given_where_needed(
    base: SnapshotView,
    global: Option<StateView>,
    session: Option<StateView>,
    events: Seq<EventView>,
    kept: Seq<char>,
    section: Seq<char>,
)
    requires
        base.fault() is None,
        snapshot_prompt_fault(base.system_prompt) is None,
        render_outcome(global, session, events) == Ok::<Option<Seq<char>>, Refusal>(
            Some(section),
        ),
        strip_outcome(base.system_prompt) == Ok::<Seq<char>, Refusal>(kept),
        forall|i: int| 0 <= i < events.len() ==> !is_blank((#[trigger] events[i]).event_id),
    ensures
        ({
            let answer = evolution_outcome(base, global, session, events);
            let wanted = if trim_end(kept).len() == 0 {
                section
            } else {
                trim_end(kept) + "\n\n"@ + section
            };
            &&& answer is Ok
            &&& answer->Ok_0 is None <==> base.system_prompt == wanted
            &&& answer->Ok_0 is Some ==> answer->Ok_0->Some_0.system_prompt == wanted
        }),
{
    if cites_blank(events) {
        let i = choose|i: int|
            0 <= i < cited_evidence(events).len() && is_blank(
                (#[trigger] cited_evidence(events)[i]).reference,
            );
        assert(is_blank(events[i].event_id));
    }
}

} // verus!
