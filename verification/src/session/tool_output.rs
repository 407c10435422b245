//! What a settled tool call reported, read off its own output.
//!
//! Both readings answer only for the shapes that are reported structurally. An absent answer
//! means that nothing was reported, never that nothing happened.

use crate::json::{json_parsed, lemma_fields_view, lemma_list_view, list_view, Json, JsonView};
use crate::session::notice::ToolEvent;
use crate::text::{chars_of, from_utf8_lossy, lossy_text, option_view, same_text};
use vstd::prelude::*;

verus! {

/// Lines that a settled edit reported changing.
#[derive(Clone, Copy, Debug, PartialEq, Eq, Hash, Structural)]
pub struct ToolEditStat {
    pub added: usize,
    pub removed: usize,
}

impl Default for ToolEditStat {
    fn default() -> (r: ToolEditStat)
        ensures
            r.added == 0,
            r.removed == 0,
    {
        ToolEditStat { added: 0, removed: 0 }
    }
}

impl ToolEditStat {
    /// Whether the edit reported no changed lines at all.
    pub fn is_empty(&self) -> (r: bool)
        ensures
            r == (self.added == 0 && self.removed == 0),
    {
        self.added == 0 && self.removed == 0
    }
}

/// One edit of a file: what it replaced, with the text around it.
#[derive(Debug, PartialEq, Eq)]
pub struct EditDetail {
    pub old_string: String,
    pub new_string: String,
    pub context_before: String,
    pub context_after: String,
}

/// The output of a tool, as far as it is read here.
#[derive(Debug, PartialEq, Eq)]
pub enum ToolOutput {
    /// An applied edit, with its details.
    EditsApplied(Vec<EditDetail>),
    /// A command: the bytes it printed, and a rendering of them that may be empty.
    Bash { output: Vec<u8>, output_for_prompt: String },
    /// Preformatted text.
    Text(String),
}

/// What an [`EditDetail`] says.
pub struct DetailView {
    pub old_string: Seq<char>,
    pub new_string: Seq<char>,
    pub context_before: Seq<char>,
    pub context_after: Seq<char>,
}

/// What a [`ToolOutput`] says.
pub enum OutputView {
    EditsApplied(Seq<DetailView>),
    Bash { output: Seq<u8>, output_for_prompt: Seq<char> },
    Text(Seq<char>),
}

impl View for EditDetail {
    type V = DetailView;

    open spec fn view(&self) -> DetailView {
        DetailView {
            old_string: self.old_string@,
            new_string: self.new_string@,
            context_before: self.context_before@,
            context_after: self.context_after@,
        }
    }
}

/// What each detail says.
pub open spec fn detail_views(details: Seq<EditDetail>) -> Seq<DetailView> {
    Seq::new(details.len(), |i: int| details[i]@)
}

impl View for ToolOutput {
    type V = OutputView;

    open spec fn view(&self) -> OutputView {
        match self {
            ToolOutput::EditsApplied(details) => OutputView::EditsApplied(detail_views(details@)),
            ToolOutput::Bash { output, output_for_prompt } => OutputView::Bash {
                output: output@,
                output_for_prompt: output_for_prompt@,
            },
            ToolOutput::Text(text) => OutputView::Text(text@),
        }
    }
}

/// The number of line ends in a text.
pub open spec fn newlines(text: Seq<char>) -> nat
    decreases text.len(),
{
    if text.len() == 0 {
        0
    } else {
        newlines(text.drop_last()) + if text.last() == '\n' {
            1nat
        } else {
            0nat
        }
    }
}

/// The number of lines that a text spells. A last line without an end is a line; an empty text
/// spells none.
pub open spec fn lines(text: Seq<char>) -> nat {
    newlines(text) + if text.len() > 0 && text.last() != '\n' {
        1nat
    } else {
        0nat
    }
}

/// The lines that an edit adds. Two empty sides with text around them are a blank line going in;
/// without it they are an empty file written empty. Any other text that stays as it was adds
/// nothing.
pub open spec fn lines_added(detail: DetailView) -> nat {
    if detail.old_string.len() == 0 && detail.new_string.len() == 0 {
        if detail.context_before.len() > 0 || detail.context_after.len() > 0 {
            1
        } else {
            0
        }
    } else if detail.old_string == detail.new_string {
        0
    } else {
        lines(detail.new_string)
    }
}

/// The lines that an edit removes. Text that stays as it was removes nothing.
pub open spec fn lines_removed(detail: DetailView) -> nat {
    if detail.old_string == detail.new_string {
        0
    } else {
        lines(detail.old_string)
    }
}

/// The lines that edits add.
pub open spec fn total_added(details: Seq<DetailView>) -> nat
    decreases details.len(),
{
    if details.len() == 0 {
        0
    } else {
        total_added(details.drop_last()) + lines_added(details.last())
    }
}

/// The lines that edits remove.
pub open spec fn total_removed(details: Seq<DetailView>) -> nat
    decreases details.len(),
{
    if details.len() == 0 {
        0
    } else {
        total_removed(details.drop_last()) + lines_removed(details.last())
    }
}

/// What an output says of changed lines: the sums over every edit, for an applied edit with
/// details.
pub open spec fn edit_outcome(output: OutputView) -> Option<(nat, nat)> {
    match output {
        OutputView::EditsApplied(details) => if details.len() == 0 {
            None
        } else {
            Some((total_added(details), total_removed(details)))
        },
        _ => None,
    }
}

proof fn lemma_newlines(text: Seq<char>)
    ensures
        newlines(text) <= text.len(),
        text.len() > 0 && text.last() != '\n' ==> newlines(text) < text.len(),
    decreases text.len(),
{
    if text.len() > 0 {
        lemma_newlines(text.drop_last());
    }
}

/// The number of lines that a text spells.
pub fn line_count(text: &str) -> (r: usize)
    ensures
        r == lines(text@),
{
    let chars = chars_of(text);
    let mut count: usize = 0;
    let mut i: usize = 0;
    proof {
        assert(chars@.take(0) =~= Seq::empty());
    }
    while i < chars.len()
        invariant
            i <= chars@.len(),
            count == newlines(chars@.take(i as int)),
            count <= i,
        decreases chars@.len() - i,
    {
        proof {
            assert(chars@.take(i + 1).drop_last() =~= chars@.take(i as int));
        }
        if chars[i] == '\n' {
            count += 1;
        }
        i += 1;
    }
    proof {
        assert(chars@.take(chars@.len() as int) =~= chars@);
        lemma_newlines(text@);
    }
    if chars.len() > 0 && chars[chars.len() - 1] != '\n' {
        count += 1;
    }
    count
}

/// The text that an output shows: what a command printed, in its rendering when it has one, or
/// preformatted text. Nothing printed is nothing shown.
pub open spec fn text_outcome(output: OutputView) -> Option<Seq<char>> {
    let text = match output {
        OutputView::Bash { output, output_for_prompt } => if output_for_prompt.len() == 0 {
            lossy_text(output)
        } else {
            output_for_prompt
        },
        OutputView::Text(text) => text,
        OutputView::EditsApplied(_) => Seq::empty(),
    };
    if text.len() == 0 {
        None
    } else {
        Some(text)
    }
}

proof fn lemma_newlines_joined(a: Seq<char>, b: Seq<char>)
    ensures
        newlines(a + b) == newlines(a) + newlines(b),
    decreases b.len(),
{
    if b.len() == 0 {
        assert(a + b =~= a);
    } else {
        assert((a + b).drop_last() =~= a + b.drop_last());
        lemma_newlines_joined(a, b.drop_last());
    }
}

proof fn lemma_no_newlines(text: Seq<char>)
    requires
        !text.contains('\n'),
    ensures
        newlines(text) == 0,
    decreases text.len(),
{
    if text.len() > 0 {
        assert(text.contains(text[text.len() - 1]));
        assert forall|i: int| 0 <= i < text.len() - 1 implies text.drop_last()[i] != '\n' by {
            assert(text.contains(text[i]));
        }
        assert(!text.drop_last().contains('\n'));
        lemma_no_newlines(text.drop_last());
    }
}

/// How lines are counted: an empty text spells none, a text without a line end that is not empty
/// spells one, and a line with its end in front of a text is one line more.
pub proof fn law_lines_are_counted_one_by_one(line: Seq<char>, rest: Seq<char>)
    requires
        !line.contains('\n'),
    ensures
        lines(Seq::empty()) == 0,
        line.len() > 0 ==> lines(line) == 1,
        lines(line.push('\n') + rest) == 1 + lines(rest),
{
    lemma_no_newlines(line);
    if line.len() > 0 {
        assert(line.contains(line[line.len() - 1]));
    }
    let first = line.push('\n');
    assert(first.drop_last() =~= line);
    lemma_newlines_joined(first, rest);
    if rest.len() == 0 {
        assert(first + rest =~= first);
    } else {
        assert((first + rest).last() == rest.last());
    }
}

/// An edit whose sides differ adds the lines that its new text spells and removes those that its
/// old text spells, whatever stands around it. Text that is replaced by itself changes no line;
/// two empty sides add one line, a blank one, exactly where text stands around them, and remove
/// none. So what stands around an edit counts only where both sides are empty.
pub proof fn law_edits_count_the_lines_of_their_sides(detail: DetailView, other: DetailView)
    ensures
        ({
            let stat = edit_outcome(OutputView::EditsApplied(seq![detail]));
            let blank = detail.old_string.len() == 0 && detail.new_string.len() == 0;
            let around = detail.context_before.len() > 0 || detail.context_after.len() > 0;
            &&& stat is Some
            &&& detail.old_string != detail.new_string ==> stat == Some(
                (lines(detail.new_string), lines(detail.old_string)),
            )
            &&& detail.old_string == detail.new_string && !blank ==> stat == Some((0nat, 0nat))
            &&& blank && around ==> stat == Some((1nat, 0nat))
            &&& blank && !around ==> stat == Some((0nat, 0nat))
        }),
        other.old_string == detail.old_string && other.new_string == detail.new_string && (
        detail.old_string.len() > 0 || detail.new_string.len() > 0) ==> edit_outcome(
            OutputView::EditsApplied(seq![other]),
        ) == edit_outcome(OutputView::EditsApplied(seq![detail])),
{
    lemma_one_edit(detail);
    lemma_one_edit(other);
    if detail.old_string.len() == 0 && detail.new_string.len() == 0 {
        assert(detail.old_string =~= detail.new_string);
    }
}

proof fn lemma_one_edit(detail: DetailView)
    ensures
        total_added(seq![detail]) == lines_added(detail),
        total_removed(seq![detail]) == lines_removed(detail),
{
    assert(seq![detail].drop_last() =~= Seq::empty());
    assert(seq![detail].last() == detail);
    assert(total_added(seq![detail].drop_last()) == 0);
    assert(total_removed(seq![detail].drop_last()) == 0);
}

proof fn lemma_totals_joined(a: Seq<DetailView>, b: Seq<DetailView>)
    ensures
        total_added(a + b) == total_added(a) + total_added(b),
        total_removed(a + b) == total_removed(a) + total_removed(b),
    decreases b.len(),
{
    if b.len() == 0 {
        assert(a + b =~= a);
    } else {
        assert((a + b).drop_last() =~= a + b.drop_last());
        lemma_totals_joined(a, b.drop_last());
    }
}

/// Edits add up: of two runs of edits applied in one call, each side's lines are the sums of those
/// of the runs. Only an applied edit with details reports any.
pub proof fn law_edit_counts_add_up(a: Seq<DetailView>, b: Seq<DetailView>, output: OutputView)
    requires
        a.len() > 0,
        b.len() > 0,
    ensures
        ({
            let first = edit_outcome(OutputView::EditsApplied(a))->Some_0;
            let second = edit_outcome(OutputView::EditsApplied(b))->Some_0;
            edit_outcome(OutputView::EditsApplied(a + b)) == Some(
                (first.0 + second.0, first.1 + second.1),
            )
        }),
        edit_outcome(output) is Some <==> output is EditsApplied && output->EditsApplied_0.len()
            > 0,
{
    lemma_totals_joined(a, b);
}

/// What a command printed is shown in its rendering, when it has one; preformatted text is shown as
/// it is. Neither an applied edit nor an output without text shows anything.
pub proof fn law_shown_text_is_what_was_printed(output: Seq<u8>, text: Seq<char>)
    ensures
        text.len() > 0 ==> text_outcome(
            OutputView::Bash { output, output_for_prompt: text },
        ) == Some(text),
        text.len() > 0 ==> text_outcome(OutputView::Text(text)) == Some(text),
        text.len() == 0 ==> text_outcome(OutputView::Text(text)) is None,
        text.len() == 0 && lossy_text(output).len() > 0 ==> text_outcome(
            OutputView::Bash { output, output_for_prompt: text },
        ) == Some(lossy_text(output)),
        text.len() == 0 && lossy_text(output).len() == 0 ==> text_outcome(
            OutputView::Bash { output, output_for_prompt: text },
        ) is None,
        forall|details: Seq<DetailView>| #[trigger]
            text_outcome(OutputView::EditsApplied(details)) is None,
{
}

impl ToolOutput {
    /// Lines added and removed, summed over every edit. More lines than a machine word counts are
    /// not reported.
    #[verifier::loop_isolation(false)]
    pub fn edit_stat(&self) -> (r: Option<ToolEditStat>)
        ensures
            match edit_outcome(self@) {
                Some((added, removed)) => if added <= usize::MAX && removed <= usize::MAX {
                    r is Some && r->Some_0.added == added && r->Some_0.removed == removed
                } else {
                    r is None
                },
                None => r is None,
            },
    {
        let details = match self {
            ToolOutput::EditsApplied(details) => details,
            _ => {
                return None;
            },
        };
        if details.len() == 0 {
            return None;
        }
        let ghost all = detail_views(details@);
        let mut added: Option<usize> = Some(0);
        let mut removed: Option<usize> = Some(0);
        let mut i: usize = 0;
        proof {
            assert(all.take(0) =~= Seq::empty());
        }
        while i < details.len()
            invariant
                i <= details@.len(),
                all == detail_views(details@),
                added == counted(total_added(all.take(i as int))),
                removed == counted(total_removed(all.take(i as int))),
            decreases details@.len() - i,
        {
            let detail = &details[i];
            proof {
                assert(all.take(i + 1).drop_last() =~= all.take(i as int));
                assert(all.take(i + 1).last() == detail@);
            }
            let old_empty = chars_of(detail.old_string.as_str()).len() == 0;
            let new_empty = chars_of(detail.new_string.as_str()).len() == 0;
            if old_empty && new_empty {
                let around = chars_of(detail.context_before.as_str()).len() > 0 || chars_of(
                    detail.context_after.as_str(),
                ).len() > 0;
                added =
                count_more(
                    added,
                    if around {
                        1
                    } else {
                        0
                    },
                );
                removed = count_more(removed, 0);
            } else if same_text(detail.old_string.as_str(), detail.new_string.as_str()) {
                added = count_more(added, 0);
                removed = count_more(removed, 0);
            } else {
                added = count_more(added, line_count(detail.new_string.as_str()));
                removed = count_more(removed, line_count(detail.old_string.as_str()));
            }
            i += 1;
        }
        proof {
            assert(all.take(all.len() as int) =~= all);
        }
        match (added, removed) {
            (Some(added), Some(removed)) => Some(ToolEditStat { added, removed }),
            _ => None,
        }
    }

    /// The text that the output shows.
    pub fn output_text(&self) -> (r: Option<String>)
        ensures
            option_view(r) == text_outcome(self@),
    {
        let text = match self {
            ToolOutput::Bash { output, output_for_prompt } => {
                if chars_of(output_for_prompt.as_str()).len() == 0 {
                    from_utf8_lossy(output.as_slice())
                } else {
                    output_for_prompt.clone()
                }
            },
            ToolOutput::Text(text) => text.clone(),
            ToolOutput::EditsApplied(_) => {
                return None;
            },
        };
        if chars_of(text.as_str()).len() == 0 {
            None
        } else {
            Some(text)
        }
    }
}

/// A count, when a machine word holds it.
pub open spec fn counted(n: nat) -> Option<usize> {
    if n <= usize::MAX {
        Some(n as usize)
    } else {
        None
    }
}

fn count_more(count: Option<usize>, more: usize) -> (r: Option<usize>)
    ensures
        forall|n: nat| count == counted(n) ==> r == #[trigger] counted(n + more as nat),
{
    match count {
        Some(n) => n.checked_add(more),
        None => None,
    }
}

/// The details of edits, when each of them can be read.
pub open spec fn details_read(items: Seq<JsonView>) -> Option<Seq<DetailView>>
    decreases items.len(),
{
    if items.len() == 0 {
        Some(Seq::empty())
    } else {
        match (details_read(items.drop_last()), detail_read(items.last())) {
            (Some(before), Some(last)) => Some(before.push(last)),
            _ => None,
        }
    }
}

/// The bytes that numbers stand for, when each of them is a byte.
pub open spec fn bytes_read(items: Seq<JsonView>) -> Option<Seq<u8>>
    decreases items.len(),
{
    if items.len() == 0 {
        Some(Seq::empty())
    } else {
        match (bytes_read(items.drop_last()), items.last().unsigned()) {
            (Some(before), Some(n)) => if n <= 255 {
                Some(before.push(n as u8))
            } else {
                None
            },
            _ => None,
        }
    }
}

/// The output of a tool, when the document is one that is read here: an object whose only field
/// names the tool.
pub open spec fn output_read(document: JsonView) -> Option<OutputView> {
    if !(document is Object && document->Object_0.len() == 1) {
        None
    } else if document.get("SearchReplace"@) is Some {
        match document.at("SearchReplace"@).at("EditsApplied"@).at("edits"@).at("details"@).list() {
            Some(items) => match details_read(items) {
                Some(details) => Some(OutputView::EditsApplied(details)),
                None => None,
            },
            None => None,
        }
    } else if document.get("Bash"@) is Some {
        match (
            document.at("Bash"@).at("output"@).list(),
            document.at("Bash"@).text_at("output_for_prompt"@),
        ) {
            (Some(items), Some(output_for_prompt)) => match bytes_read(items) {
                Some(output) => Some(OutputView::Bash { output, output_for_prompt }),
                None => None,
            },
            _ => None,
        }
    } else {
        match document.at("Text"@).text_at("text"@) {
            Some(text) => Some(OutputView::Text(text)),
            None => None,
        }
    }
}

/// The fields of an edit that are read.
pub open spec fn detail_read(document: JsonView) -> Option<DetailView> {
    match (
        document.text_at("old_string"@),
        document.text_at("new_string"@),
        document.text_at("context_before"@),
        document.text_at("context_after"@),
    ) {
        (
            Some(old_string),
            Some(new_string),
            Some(context_before),
            Some(context_after),
        ) => Some(DetailView { old_string, new_string, context_before, context_after }),
        _ => None,
    }
}

fn read_detail(document: &Json) -> (r: Option<EditDetail>)
    ensures
        match r {
            Some(detail) => detail_read(document@) == Some(detail@),
            None => detail_read(document@) is None,
        },
{
    match (
        document.text_at("old_string"),
        document.text_at("new_string"),
        document.text_at("context_before"),
        document.text_at("context_after"),
    ) {
        (
            Some(old_string),
            Some(new_string),
            Some(context_before),
            Some(context_after),
        ) => Some(EditDetail { old_string, new_string, context_before, context_after }),
        _ => None,
    }
}

proof fn lemma_details_prefix(items: Seq<JsonView>, n: int)
    requires
        0 <= n <= items.len(),
        details_read(items.take(n)) is None,
    ensures
        details_read(items) is None,
    decreases items.len(),
{
    if n == items.len() {
        assert(items.take(n) =~= items);
    } else {
        assert(items.drop_last().take(n) =~= items.take(n));
        lemma_details_prefix(items.drop_last(), n);
    }
}

proof fn lemma_bytes_prefix(items: Seq<JsonView>, n: int)
    requires
        0 <= n <= items.len(),
        bytes_read(items.take(n)) is None,
    ensures
        bytes_read(items) is None,
    decreases items.len(),
{
    if n == items.len() {
        assert(items.take(n) =~= items);
    } else {
        assert(items.drop_last().take(n) =~= items.take(n));
        lemma_bytes_prefix(items.drop_last(), n);
    }
}

fn read_details(items: &Vec<Json>) -> (r: Option<Vec<EditDetail>>)
    ensures
        match r {
            Some(details) => details_read(list_view(items@)) == Some(detail_views(details@)),
            None => details_read(list_view(items@)) is None,
        },
{
    let ghost all = list_view(items@);
    let mut out: Vec<EditDetail> = Vec::new();
    let mut i: usize = 0;
    proof {
        lemma_list_view(items@);
        assert(all.take(0) =~= Seq::empty());
        assert(detail_views(out@) =~= Seq::empty());
    }
    while i < items.len()
        invariant
            i <= items@.len(),
            all == list_view(items@),
            all.len() == items@.len(),
            forall|j: int| 0 <= j < items@.len() ==> #[trigger] all[j] == items@[j]@,
            details_read(all.take(i as int)) == Some(detail_views(out@)),
        decreases items@.len() - i,
    {
        let ghost before = detail_views(out@);
        proof {
            assert(all.take(i + 1).drop_last() =~= all.take(i as int));
            assert(all.take(i + 1).last() == items@[i as int]@);
        }
        match read_detail(&items[i]) {
            Some(detail) => {
                out.push(detail);
                proof {
                    assert(detail_views(out@) =~= before.push(detail@));
                }
            },
            None => {
                proof {
                    lemma_details_prefix(all, i + 1);
                }
                return None;
            },
        }
        i += 1;
    }
    proof {
        assert(all.take(all.len() as int) =~= all);
    }
    Some(out)
}

fn read_bytes(items: &Vec<Json>) -> (r: Option<Vec<u8>>)
    ensures
        match r {
            Some(bytes) => bytes_read(list_view(items@)) == Some(bytes@),
            None => bytes_read(list_view(items@)) is None,
        },
{
    let ghost all = list_view(items@);
    let mut out: Vec<u8> = Vec::new();
    let mut i: usize = 0;
    proof {
        lemma_list_view(items@);
        assert(all.take(0) =~= Seq::empty());
        assert(out@ =~= Seq::empty());
    }
    while i < items.len()
        invariant
            i <= items@.len(),
            all == list_view(items@),
            all.len() == items@.len(),
            forall|j: int| 0 <= j < items@.len() ==> #[trigger] all[j] == items@[j]@,
            bytes_read(all.take(i as int)) == Some(out@),
        decreases items@.len() - i,
    {
        proof {
            assert(all.take(i + 1).drop_last() =~= all.take(i as int));
            assert(all.take(i + 1).last() == items@[i as int]@);
        }
        match items[i].as_unsigned() {
            Some(n) if n <= 255 => {
                out.push(n as u8);
            },
            _ => {
                proof {
                    lemma_bytes_prefix(all, i + 1);
                }
                return None;
            },
        }
        i += 1;
    }
    proof {
        assert(all.take(all.len() as int) =~= all);
    }
    Some(out)
}

/// Reads the output of a tool from its document.
fn read_output(document: &Json) -> (r: Option<ToolOutput>)
    ensures
        match r {
            Some(output) => output_read(document@) == Some(output@),
            None => output_read(document@) is None,
        },
{
    match document {
        Json::Object(fields) => {
            proof {
                lemma_fields_view(fields@);
            }
            if fields.len() != 1 {
                return None;
            }
        },
        _ => {
            return None;
        },
    }
    if let Some(edit) = document.get("SearchReplace") {
        return match edit.get("EditsApplied") {
            Some(applied) => match applied.get("edits") {
                Some(edits) => match edits.get("details") {
                    Some(Json::List(items)) => match read_details(items) {
                        Some(details) => Some(ToolOutput::EditsApplied(details)),
                        None => None,
                    },
                    _ => None,
                },
                None => None,
            },
            None => None,
        };
    }
    if let Some(command) = document.get("Bash") {
        return match (command.get("output"), command.text_at("output_for_prompt")) {
            (Some(Json::List(items)), Some(output_for_prompt)) => match read_bytes(items) {
                Some(output) => Some(ToolOutput::Bash { output, output_for_prompt }),
                None => None,
            },
            _ => None,
        };
    }
    match document.get("Text") {
        Some(text) => match text.text_at("text") {
            Some(text) => Some(ToolOutput::Text(text)),
            None => None,
        },
        None => None,
    }
}

/// What a raw output says, when it can be read.
pub open spec fn raw_output_read(raw: Option<Seq<char>>) -> Option<OutputView> {
    match raw {
        Some(text) => match json_parsed(text) {
            Some(document) => output_read(document),
            None => None,
        },
        None => None,
    }
}

/// Reads the output that a tool sent. Output of a shape that is not known here reads as nothing.
fn parsed_output(raw: &Option<String>) -> (r: Option<ToolOutput>)
    ensures
        match r {
            Some(output) => raw_output_read(option_view(*raw)) == Some(output@),
            None => raw_output_read(option_view(*raw)) is None,
        },
{
    match raw {
        Some(text) => match Json::parse(text.as_str()) {
            Some(document) => read_output(&document),
            None => None,
        },
        None => None,
    }
}

impl ToolEvent {
    /// Lines added and removed, summed over every edit that the call applied. A call of another
    /// kind, one that failed, and one that applied without details report nothing.
    pub fn edit_stat(&self) -> (r: Option<ToolEditStat>)
        ensures
            match raw_output_read(option_view(self.raw_output)) {
                Some(output) => match edit_outcome(output) {
                    Some((added, removed)) => if added <= usize::MAX && removed <= usize::MAX {
                        r is Some && r->Some_0.added == added && r->Some_0.removed == removed
                    } else {
                        r is None
                    },
                    None => r is None,
                },
                None => r is None,
            },
    {
        match parsed_output(&self.raw_output) {
            Some(output) => output.edit_stat(),
            None => None,
        }
    }

    /// The text that the call produced, when it produced text.
    pub fn output_text(&self) -> (r: Option<String>)
        ensures
            option_view(r) == match raw_output_read(option_view(self.raw_output)) {
                Some(output) => text_outcome(output),
                None => None,
            },
    {
        match parsed_output(&self.raw_output) {
            Some(output) => output.output_text(),
            None => None,
        }
    }
}

proof fn lemma_details_read(items: Seq<JsonView>)
    ensures
        details_read(items) matches Some(details) ==> details.len() == items.len() && forall|i: int|
            0 <= i < items.len() ==> detail_read(#[trigger] items[i]) == Some(details[i]),
        details_read(items) is None ==> exists|i: int|
            0 <= i < items.len() && detail_read(#[trigger] items[i]) is None,
    decreases items.len(),
{
    if items.len() > 0 {
        let shorter = items.drop_last();
        lemma_details_read(shorter);
        let n = items.len() - 1;
        assert(items[n] == items.last());
        if details_read(items) is None && details_read(shorter) is None {
            let i = choose|i: int|
                0 <= i < shorter.len() && detail_read(#[trigger] shorter[i]) is None;
            assert(items[i] == shorter[i]);
        }
        if details_read(items) is Some {
            let details = details_read(items)->Some_0;
            assert forall|i: int| 0 <= i < items.len() implies detail_read(#[trigger] items[i])
                == Some(details[i]) by {
                if i < n {
                    assert(shorter[i] == items[i]);
                }
            }
        }
    }
}

proof fn lemma_bytes_read(items: Seq<JsonView>)
    ensures
        bytes_read(items) matches Some(bytes) ==> bytes.len() == items.len() && forall|i: int|
            0 <= i < items.len() ==> (#[trigger] items[i]).unsigned() == Some(bytes[i] as u64),
    decreases items.len(),
{
    if items.len() > 0 {
        let shorter = items.drop_last();
        lemma_bytes_read(shorter);
        if bytes_read(items) is Some {
            let bytes = bytes_read(items)->Some_0;
            assert forall|i: int| 0 <= i < items.len() implies (#[trigger] items[i]).unsigned()
                == Some(bytes[i] as u64) by {
                if i < items.len() - 1 {
                    assert(shorter[i] == items[i]);
                }
            }
        }
    }
}

/// What is read of a tool's document is what the document says. An applied edit holds every detail,
/// in order, each with the four texts of its own document; a command holds the bytes that it lists
/// and its rendering; a text is the text. A document that is not one object with one field is read
/// as nothing.
pub proof fn law_outputs_tell_what_the_document_says(document: JsonView)
    ensures
        output_read(document) is Some ==> document is Object && document->Object_0.len() == 1,
        output_read(document) matches Some(OutputView::EditsApplied(details)) ==> {
            let items = document.at("SearchReplace"@).at("EditsApplied"@).at("edits"@).at(
                "details"@,
            ).list();
            &&& items is Some
            &&& details.len() == items->Some_0.len()
            &&& forall|i: int|
                0 <= i < details.len() ==> {
                    let of = items->Some_0[i];
                    &&& of.text_at("old_string"@) == Some((#[trigger] details[i]).old_string)
                    &&& of.text_at("new_string"@) == Some(details[i].new_string)
                    &&& of.text_at("context_before"@) == Some(details[i].context_before)
                    &&& of.text_at("context_after"@) == Some(details[i].context_after)
                }
        },
        output_read(document) matches Some(OutputView::Bash { output, output_for_prompt }) ==> {
            let items = document.at("Bash"@).at("output"@).list();
            &&& items is Some
            &&& output.len() == items->Some_0.len()
            &&& forall|i: int|
                0 <= i < output.len() ==> items->Some_0[i].unsigned() == Some(
                    #[trigger] output[i] as u64,
                )
            &&& document.at("Bash"@).text_at("output_for_prompt"@) == Some(output_for_prompt)
        },
        output_read(document) matches Some(OutputView::Text(text)) ==> document.at(
            "Text"@,
        ).text_at("text"@) == Some(text),
{
    let details = document.at("SearchReplace"@).at("EditsApplied"@).at("edits"@).at(
        "details"@,
    ).list();
    if details is Some {
        lemma_details_read(details->Some_0);
    }
    let bytes = document.at("Bash"@).at("output"@).list();
    if bytes is Some {
        lemma_bytes_read(bytes->Some_0);
    }
}

} // verus!
