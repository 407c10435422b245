//! The planner turn of a refinement pass: the prompts it is given and the reply it returns.

use crate::evolution::event::{EventView, RefinementEvent};
use crate::evolution::{joined, refusal, EvolutionError, Refusal, MAX_PLANNER_TRANSCRIPT_BYTES};
use crate::text::{
    blank, char_width, chars_of, decimal, is_blank, option_view, push_decimal, same_text, text_of,
    trim, trim_text, utf8_len,
};
use vstd::prelude::*;
use vstd::utf8::{encode_scalar, encode_utf8};

verus! {

/// The planner's explicit verdict that nothing is worth keeping.
pub const NO_REFINEMENT_REPLY: &'static str = "NO_REFINEMENT";

/// The planner's instructions, up to the scope policy.
pub const PLANNER_RULES: &'static str =
    "You are the harness refinement planner for an autonomous coding agent. You convert trajectory evidence into the smallest useful set of edits to the agent's continual harness: supplemental prompt notes, memories, skill contracts, and subagent specifications.\n\nRules:\n- Never modify or restate the base system prompt; the harness is supplemental only.\n- Every edit must be justified by concrete evidence from the trajectory; skip one-off noise and unsupported hypotheses.\n- Classify correctly: behavioral guidance is `prompt`, facts and outcomes are `memory`, callable-capability routing is `skill`, delegation roles are `subagent`.\n- A `skill` edit must include a `skill` object with an `invocation` string and an `arguments` map describing an already-available capability; never invent capabilities.\n- For update/delete edits, copy `expected_version` from the current harness overview.\n- Emit the smallest change that captures the lesson; prefer updating an existing entry over creating a near-duplicate.\n- ";

/// The scope policy where global edits are permitted.
pub const PLANNER_GLOBAL_POLICY: &'static str =
    "Edits target ONE scope. Prefer the session scope; propose global edits only for stable, broadly reusable lessons, and say so in the rationale.";

/// The scope policy where they are not.
pub const PLANNER_SESSION_POLICY: &'static str =
    "Edits target the session scope only. If a lesson deserves global promotion, say so in the rationale but keep the edits session-scoped.";

/// The shape of the reply.
pub const PLANNER_REPLY_SHAPE: &'static str =
    "\n\nReply with ONE JSON object and nothing else:\n{\n  \"summary\": \"...\",\n  \"rationale\": \"...\",\n  \"expected_outcome\": \"...\",\n  \"edits\": [\n    {\n      \"action\": \"create|update|delete\",\n      \"kind\": \"prompt|memory|skill|subagent\",\n      \"id\": \"existing-id-for-update-or-delete\",\n      \"title\": \"...\",\n      \"content\": \"...\",\n      \"skill\": {\"invocation\": \"...\", \"arguments\": {\"name\": \"doc\"}},\n      \"expected_version\": 1,\n      \"reason\": \"...\"\n    }\n  ]\n}\n\nIf the trajectory contains nothing worth persisting, reply with the literal string NO_REFINEMENT instead of JSON.";

/// The planner turn of one refinement pass.
#[derive(Debug, PartialEq, Eq)]
pub struct RefinementPlanner {
    pub transcript_excerpt: String,
    pub harness_overview: Option<String>,
    pub history_lines: Vec<String>,
    pub instructions: Option<String>,
    pub allow_global: bool,
}

/// Whether `tail` is the longest end of `text` that fits in `limit` bytes.
pub open spec fn longest_tail(text: Seq<char>, tail: Seq<char>, limit: nat) -> bool {
    exists|k: int|
        0 <= k <= text.len() && tail == #[trigger] text.skip(k) && utf8_len(tail) <= limit && (k
            == 0 || utf8_len(text.skip(k - 1)) > limit)
}

/// One event as a planner line.
pub open spec fn planner_line(e: EventView) -> Seq<char> {
    "- ["@ + e.scope.label() + " rev "@ + decimal(e.resulting_revision as nat) + "] "@ + e.summary
        + " (applied "@ + decimal(e.applied.len()) + ", rejected "@ + decimal(e.rejected.len())
        + "): expected "@ + e.expected_outcome
}

/// The texts of a list of lines.
pub open spec fn line_views(lines: Seq<String>) -> Seq<Seq<char>> {
    Seq::new(lines.len(), |i: int| lines[i]@)
}

/// Lines, each with its line break.
pub open spec fn broken_lines(lines: Seq<Seq<char>>) -> Seq<char>
    decreases lines.len(),
{
    if lines.len() == 0 {
        Seq::empty()
    } else {
        (broken_lines(lines.drop_last()) + lines.last()).push('\n')
    }
}

/// The user prompt of a planner turn.
pub open spec fn planner_prompt(
    overview: Option<Seq<char>>,
    history: Seq<Seq<char>>,
    instructions: Option<Seq<char>>,
    transcript: Seq<char>,
) -> Seq<char> {
    let harness = match overview {
        Some(text) => if is_blank(text) {
            "(empty)\n"@
        } else {
            text.push('\n')
        },
        None => "(empty)\n"@,
    };
    let outcomes = if history.len() == 0 {
        "(none)\n"@
    } else {
        broken_lines(history)
    };
    let focus = match instructions {
        Some(text) => ("\n## Focus\n"@ + text).push('\n'),
        None => Seq::empty(),
    };
    "## Current harness\n"@ + harness + "\n## Recent refinement outcomes\n"@ + outcomes + focus
        + "\n## Trajectory\n"@ + transcript
}

impl RefinementPlanner {
    /// Keeps the end of the transcript, as much of it as fits.
    pub fn new(transcript: &str) -> (r: RefinementPlanner)
        ensures
            longest_tail(
                transcript@,
                r.transcript_excerpt@,
                MAX_PLANNER_TRANSCRIPT_BYTES as nat,
            ),
            r.harness_overview is None,
            r.history_lines@.len() == 0,
            r.instructions is None,
            !r.allow_global,
    {
        let chars = chars_of(transcript);
        let mut k: usize = chars.len();
        let mut size: usize = 0;
        let mut open: bool = k > 0;
        proof {
            assert(transcript@.skip(k as int) =~= Seq::<char>::empty());
        }
        while open
            invariant
                k <= chars@.len(),
                chars@ == transcript@,
                size == utf8_len(transcript@.skip(k as int)),
                size <= MAX_PLANNER_TRANSCRIPT_BYTES,
                open ==> k > 0,
                !open ==> k == 0 || utf8_len(transcript@.skip(k - 1))
                    > MAX_PLANNER_TRANSCRIPT_BYTES,
            decreases k + (if open { 1int } else { 0 }),
        {
            let width: usize = char_width(chars[k - 1]);
            proof {
                let longer = transcript@.skip(k - 1);
                assert(longer[0] == chars@[k - 1]);
                assert(longer.drop_first() =~= transcript@.skip(k as int));
                assert(encode_utf8(longer) == encode_scalar(longer[0] as u32) + encode_utf8(
                    longer.drop_first(),
                ));
            }
            if size + width <= MAX_PLANNER_TRANSCRIPT_BYTES {
                size += width;
                k -= 1;
                open = k > 0;
            } else {
                open = false;
            }
        }
        let excerpt = text_of(&chars, k, chars.len());
        proof {
            assert(excerpt@ =~= transcript@.skip(k as int));
        }
        RefinementPlanner {
            transcript_excerpt: excerpt,
            harness_overview: None,
            history_lines: Vec::new(),
            instructions: None,
            allow_global: false,
        }
    }

    pub fn harness_overview(self, overview: &str) -> (r: RefinementPlanner)
        ensures
            option_view(r.harness_overview) == Some(overview@),
            r == (RefinementPlanner { harness_overview: r.harness_overview, ..self }),
    {
        RefinementPlanner { harness_overview: Some(overview.to_owned()), ..self }
    }

    /// Recalls the outcomes of recent events, one line each.
    pub fn recent_events(self, events: &Vec<RefinementEvent>) -> (r: RefinementPlanner)
        ensures
            r == (RefinementPlanner { history_lines: r.history_lines, ..self }),
            line_views(r.history_lines@) == Seq::new(
                events@.len(),
                |i: int| planner_line(events@[i]@),
            ),
    {
        let mut lines: Vec<String> = Vec::new();
        let mut i: usize = 0;
        while i < events.len()
            invariant
                i <= events@.len(),
                lines@.len() == i,
                forall|j: int| 0 <= j < i ==> (#[trigger] lines@[j])@ == planner_line(events@[j]@),
            decreases events@.len() - i,
        {
            let e = &events[i];
            let mut out = "- [".to_owned();
            out.append(e.scope.label());
            out.append(" rev ");
            push_decimal(&mut out, e.resulting_revision);
            out.append("] ");
            out.append(e.summary.as_str());
            out.append(" (applied ");
            push_decimal(&mut out, e.applied.len() as u64);
            out.append(", rejected ");
            push_decimal(&mut out, e.rejected.len() as u64);
            out.append("): expected ");
            out.append(e.expected_outcome.as_str());
            lines.push(out);
            i += 1;
        }
        proof {
            assert(line_views(lines@) =~= Seq::new(
                events@.len(),
                |i: int| planner_line(events@[i]@),
            ));
        }
        RefinementPlanner { history_lines: lines, ..self }
    }

    pub fn instructions(self, instructions: &str) -> (r: RefinementPlanner)
        ensures
            option_view(r.instructions) == Some(instructions@),
            r == (RefinementPlanner { instructions: r.instructions, ..self }),
    {
        RefinementPlanner { instructions: Some(instructions.to_owned()), ..self }
    }

    /// Permits the planner to target the global scope.
    pub fn allow_global(self, allow: bool) -> (r: RefinementPlanner)
        ensures
            r == (RefinementPlanner { allow_global: allow, ..self }),
    {
        RefinementPlanner { allow_global: allow, ..self }
    }

    pub fn system_prompt(&self) -> (r: String)
        ensures
            r@ == PLANNER_RULES@ + (if self.allow_global {
                PLANNER_GLOBAL_POLICY@
            } else {
                PLANNER_SESSION_POLICY@
            }) + PLANNER_REPLY_SHAPE@,
    {
        let mut out = PLANNER_RULES.to_owned();
        out.append(
            if self.allow_global {
                PLANNER_GLOBAL_POLICY
            } else {
                PLANNER_SESSION_POLICY
            },
        );
        out.append(PLANNER_REPLY_SHAPE);
        out
    }

    pub fn user_prompt(&self) -> (r: String)
        ensures
            r@ == planner_prompt(
                option_view(self.harness_overview),
                line_views(self.history_lines@),
                option_view(self.instructions),
                self.transcript_excerpt@,
            ),
    {
        let mut prompt = "## Current harness\n".to_owned();
        let harness = match &self.harness_overview {
            Some(overview) => {
                if blank(overview.as_str()) {
                    "(empty)\n".to_owned()
                } else {
                    let mut text = overview.clone();
                    text.push('\n');
                    text
                }
            },
            None => "(empty)\n".to_owned(),
        };
        prompt.append(harness.as_str());
        prompt.append("\n## Recent refinement outcomes\n");
        let outcomes = if self.history_lines.len() == 0 {
            "(none)\n".to_owned()
        } else {
            let mut text = String::new();
            let ghost lines = line_views(self.history_lines@);
            let mut i: usize = 0;
            proof {
                assert(lines.take(0) =~= Seq::empty());
            }
            while i < self.history_lines.len()
                invariant
                    i <= self.history_lines@.len(),
                    lines == line_views(self.history_lines@),
                    text@ == broken_lines(lines.take(i as int)),
                decreases self.history_lines@.len() - i,
            {
                text.append(self.history_lines[i].as_str());
                text.push('\n');
                proof {
                    assert(lines.take(i + 1).drop_last() =~= lines.take(i as int));
                    assert(lines.take(i + 1).last() == self.history_lines@[i as int]@);
                }
                i += 1;
            }
            proof {
                assert(lines.take(lines.len() as int) =~= lines);
            }
            text
        };
        prompt.append(outcomes.as_str());
        let focus = match &self.instructions {
            Some(instructions) => {
                let mut text = joined("\n## Focus\n", instructions.as_str());
                text.push('\n');
                text
            },
            None => String::new(),
        };
        prompt.append(focus.as_str());
        prompt.append("\n## Trajectory\n");
        prompt.append(self.transcript_excerpt.as_str());
        prompt
    }
}

/// The positions of a reply's first opening and last closing brace.
pub open spec fn object_span(reply: Seq<char>, start: int, end: int) -> bool {
    &&& 0 <= start < reply.len()
    &&& 0 <= end < reply.len()
    &&& reply[start] == '{'
    &&& reply[end] == '}'
    &&& forall|i: int| 0 <= i < start ==> reply[i] != '{'
    &&& forall|i: int| end < i < reply.len() ==> reply[i] != '}'
}

/// Whether a text opens a fence: one line of three backticks and whatever else stands behind them,
/// with no backtick in it.
pub open spec fn opens_fence(text: Seq<char>) -> bool {
    &&& text.len() >= 3
    &&& text[0] == '`' && text[1] == '`' && text[2] == '`'
    &&& forall|i: int| 3 <= i < text.len() ==> is_info_char(#[trigger] text[i])
}

/// Whether a character can stand behind the backticks that open a fence.
pub open spec fn is_info_char(c: char) -> bool {
    c != '\n' && c != '`'
}

/// Whether what stands around an object leaves it bare or fenced.
pub open spec fn bare_or_fenced(before: Seq<char>, after: Seq<char>) -> bool {
    (is_blank(before) && is_blank(after)) || (opens_fence(trim(before)) && trim(after) == "```"@)
}

/// The JSON object that a reply is, bare or fenced: it runs from the first opening to the last
/// closing brace, with nothing but a fence around it.
pub open spec fn object_outcome(reply: Seq<char>) -> Result<Seq<char>, Refusal> {
    if !reply.contains('{') {
        Err(Refusal::Serialization("planner reply contains no JSON object"@))
    } else if !reply.contains('}') {
        Err(Refusal::Serialization("planner reply contains an unterminated JSON object"@))
    } else {
        let (start, end) = choose|start: int, end: int| object_span(reply, start, end);
        if end < start {
            Err(Refusal::Serialization("planner reply contains no complete JSON object"@))
        } else if !bare_or_fenced(reply.take(start), reply.skip(end + 1)) {
            Err(Refusal::Serialization("planner reply is not one bare or fenced JSON object"@))
        } else {
            Ok(reply.subrange(start, end + 1))
        }
    }
}

/// Whether a text opens a fence.
fn is_fence(text: &str) -> (r: bool)
    ensures
        r == opens_fence(text@),
{
    let chars = chars_of(text);
    if chars.len() < 3 || chars[0] != '`' || chars[1] != '`' || chars[2] != '`' {
        return false;
    }
    let mut i: usize = 3;
    while i < chars.len()
        invariant
            3 <= i <= chars@.len(),
            chars@ == text@,
            forall|j: int| 3 <= j < i ==> is_info_char(#[trigger] chars@[j]),
        decreases chars@.len() - i,
    {
        let c = chars[i];
        if c == '\n' || c == '`' {
            assert(!is_info_char(chars@[i as int]));
            return false;
        }
        i += 1;
    }
    true
}

/// Finds the JSON object that a reply is.
pub fn extract_json_object(reply: &str) -> (r: Result<String, EvolutionError>)
    ensures
        match object_outcome(reply@) {
            Ok(text) => r matches Ok(found) && found@ == text,
            Err(e) => refusal(r) == Some(e),
        },
{
    let chars = chars_of(reply);
    let mut start: usize = 0;
    while start < chars.len() && chars[start] != '{'
        invariant
            start <= chars@.len(),
            forall|i: int| 0 <= i < start ==> chars@[i] != '{',
        decreases chars@.len() - start,
    {
        start += 1;
    }
    if start == chars.len() {
        assert(!reply@.contains('{'));
        return Err(
            EvolutionError::Serialization("planner reply contains no JSON object".to_owned()),
        );
    }
    assert(reply@.contains('{')) by {
        assert(reply@[start as int] == '{');
    }
    let mut end: usize = chars.len();
    while end > 0 && chars[end - 1] != '}'
        invariant
            end <= chars@.len(),
            forall|i: int| end <= i < chars@.len() ==> chars@[i] != '}',
        decreases end,
    {
        end -= 1;
    }
    if end == 0 {
        assert(!reply@.contains('}'));
        return Err(
            EvolutionError::Serialization(
                "planner reply contains an unterminated JSON object".to_owned(),
            ),
        );
    }
    let last: usize = end - 1;
    proof {
        assert(reply@[last as int] == '}');
        assert(reply@.contains('}'));
        assert(object_span(reply@, start as int, last as int));
        let (s, e) = choose|s: int, e: int| object_span(reply@, s, e);
        assert(s == start && e == last);
    }
    if last < start {
        return Err(
            EvolutionError::Serialization(
                "planner reply contains no complete JSON object".to_owned(),
            ),
        );
    }
    let before = text_of(&chars, 0, start);
    let after = text_of(&chars, end, chars.len());
    proof {
        assert(before@ =~= reply@.take(start as int));
        assert(after@ =~= reply@.skip(last + 1));
    }
    let bare = blank(before.as_str()) && blank(after.as_str());
    let fenced = is_fence(trim_text(before.as_str()).as_str()) && same_text(
        trim_text(after.as_str()).as_str(),
        "```",
    );
    if !bare && !fenced {
        return Err(
            EvolutionError::Serialization(
                "planner reply is not one bare or fenced JSON object".to_owned(),
            ),
        );
    }
    Ok(text_of(&chars, start, end))
}

} // verus!
