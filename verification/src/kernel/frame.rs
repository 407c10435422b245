//! The line protocol between the runtime and a kernel.
//!
//! A frame is found by its mark in the byte stream, because a fragment may write output that does
//! not end in a line end. What stands before the mark is output; the line behind it says how the
//! directive ended.

use crate::digest::push_bytes;
use crate::kernel::{kernel_fault, label_fault, two, KernelError, KernelFault, KernelLabel};
use crate::program::custody::{
    absorbed, law_captures_do_not_depend_on_pieces, BoundedCapture, BoundedView,
};
use crate::text::{
    debug_quoted, from_utf8_lossy, head_of, lemma_char_absent, lemma_char_at, lossy_text, quoted,
    rest_of, same_text, split_head, starts_with, strip_prefix,
};
use vstd::prelude::*;

verus! {

/// The byte of which two make the mark of a frame.
pub const FRAME_MARK_BYTE: u8 = 0x1e;

/// The line end, as a byte.
pub const LINE_END: u8 = 0x0a;

/// How a kernel says that a directive ended.
#[derive(Debug, PartialEq, Eq)]
pub enum FrameStatus {
    Done,
    Raised(KernelLabel),
    Cancelled,
    Rejected(KernelLabel),
}

/// What a [`FrameStatus`] says.
pub enum FrameView {
    Done,
    Raised(Seq<char>),
    Cancelled,
    Rejected(Seq<char>),
}

impl View for FrameStatus {
    type V = FrameView;

    open spec fn view(&self) -> FrameView {
        match self {
            FrameStatus::Done => FrameView::Done,
            FrameStatus::Raised(label) => FrameView::Raised(label@),
            FrameStatus::Cancelled => FrameView::Cancelled,
            FrameStatus::Rejected(label) => FrameView::Rejected(label@),
        }
    }
}

/// How a directive ended, by the words of the kernel.
pub open spec fn status_named(value: Seq<char>) -> Result<FrameView, KernelFault> {
    let head = head_of(value);
    let rest = rest_of(value);
    if head == "ok"@ {
        Ok(FrameView::Done)
    } else if head == "cancelled"@ {
        Ok(FrameView::Cancelled)
    } else if head == "raised"@ {
        match label_fault(rest) {
            None => Ok(FrameView::Raised(rest)),
            Some(e) => Err(e),
        }
    } else if head == "rejected"@ {
        match label_fault(rest) {
            None => Ok(FrameView::Rejected(rest)),
            Some(e) => Err(e),
        }
    } else {
        Err(KernelFault::Start("kernel answered an unknown frame status "@ + debug_quoted(head)))
    }
}

impl FrameStatus {
    /// Reads how a directive ended.
    pub fn parse(value: &str) -> (r: Result<FrameStatus, KernelError>)
        ensures
            match status_named(value@) {
                Ok(status) => r is Ok && r->Ok_0@ == status,
                Err(e) => kernel_fault(r) == Some(e),
            },
    {
        let (head, rest) = split_head(value);
        if same_text(head.as_str(), "ok") {
            return Ok(FrameStatus::Done);
        }
        if same_text(head.as_str(), "cancelled") {
            return Ok(FrameStatus::Cancelled);
        }
        if same_text(head.as_str(), "raised") {
            return match KernelLabel::new(rest.as_str()) {
                Ok(label) => Ok(FrameStatus::Raised(label)),
                Err(error) => Err(error),
            };
        }
        if same_text(head.as_str(), "rejected") {
            return match KernelLabel::new(rest.as_str()) {
                Ok(label) => Ok(FrameStatus::Rejected(label)),
                Err(error) => Err(error),
            };
        }
        let name = quoted(head.as_str());
        Err(KernelError::Start(two("kernel answered an unknown frame status ", name.as_str())))
    }

    /// The words for how a directive ended.
    pub fn to_text(&self) -> (r: String)
        ensures
            r@ == status_words(self@),
    {
        match self {
            FrameStatus::Done => "ok".to_owned(),
            FrameStatus::Raised(label) => two("raised ", label.as_str()),
            FrameStatus::Cancelled => "cancelled".to_owned(),
            FrameStatus::Rejected(label) => two("rejected ", label.as_str()),
        }
    }
}

/// The words for how a directive ended.
pub open spec fn status_words(status: FrameView) -> Seq<char> {
    match status {
        FrameView::Done => "ok"@,
        FrameView::Raised(label) => "raised "@ + label,
        FrameView::Cancelled => "cancelled"@,
        FrameView::Rejected(label) => "rejected "@ + label,
    }
}

/// How a directive ended is read back from its words.
pub proof fn law_frame_statuses_round_trip(status: FrameView)
    requires
        status matches FrameView::Raised(label) ==> label_fault(label) is None,
        status matches FrameView::Rejected(label) ==> label_fault(label) is None,
    ensures
        status_named(status_words(status)) == Ok::<FrameView, KernelFault>(status),
{
    reveal_strlit("ok");
    reveal_strlit("cancelled");
    reveal_strlit("raised");
    reveal_strlit("rejected");
    reveal_strlit("raised ");
    reveal_strlit("rejected ");
    let words = status_words(status);
    assert("ok"@.len() == 2 && "cancelled"@.len() == 9 && "raised"@.len() == 6 && "rejected"@.len()
        == 8);
    match status {
        FrameView::Done => {
            lemma_char_absent(words, ' ', 0);
        },
        FrameView::Cancelled => {
            lemma_char_absent(words, ' ', 0);
        },
        FrameView::Raised(label) => {
            lemma_char_at(words, ' ', 0, 6);
            assert(words.take(6) =~= "raised"@);
            assert(words.skip(7) =~= label);
        },
        FrameView::Rejected(label) => {
            lemma_char_at(words, ' ', 0, 8);
            assert(words.take(8) =~= "rejected"@);
            assert(words.skip(9) =~= label);
        },
    }
}

/// One directive's worth of one stream. Without a status the stream ended before a frame came:
/// the kernel died, or said something that is no status.
#[derive(Debug, PartialEq, Eq)]
pub struct Segment {
    pub capture: BoundedCapture,
    pub status: Option<FrameStatus>,
}

/// What a [`Segment`] says.
pub struct SegmentView {
    pub capture: BoundedView,
    pub status: Option<FrameView>,
}

impl View for Segment {
    type V = SegmentView;

    open spec fn view(&self) -> SegmentView {
        SegmentView {
            capture: self.capture@,
            status: match self.status {
                Some(status) => Some(status@),
                None => None,
            },
        }
    }
}

/// What each segment says.
pub open spec fn segment_views(segments: Seq<Segment>) -> Seq<SegmentView> {
    Seq::new(segments.len(), |i: int| segments[i]@)
}

/// Whether a mark stands at `i`.
pub open spec fn marked(s: Seq<u8>, i: int) -> bool {
    0 <= i && i + 2 <= s.len() && s[i] == FRAME_MARK_BYTE && s[i + 1] == FRAME_MARK_BYTE
}

/// The position of the first mark from `from` on.
pub open spec fn mark_from(s: Seq<u8>, from: int) -> Option<int>
    decreases s.len() - from,
{
    if from < 0 || from + 2 > s.len() {
        None
    } else if marked(s, from) {
        Some(from)
    } else {
        mark_from(s, from + 1)
    }
}

/// The position of the first line end from `from` on.
pub open spec fn line_end_from(s: Seq<u8>, from: int) -> Option<int>
    decreases s.len() - from,
{
    if from < 0 || from >= s.len() {
        None
    } else if s[from] == LINE_END {
        Some(from)
    } else {
        line_end_from(s, from + 1)
    }
}

/// What the line behind a mark says.
pub open spec fn line_status(line: Seq<u8>) -> Option<FrameView> {
    let text = lossy_text(line);
    if starts_with(text, "done "@) {
        match status_named(text.skip("done "@.len() as int)) {
            Ok(status) => Some(status),
            Err(_) => None,
        }
    } else {
        None
    }
}

/// A capture of nothing.
pub open spec fn nothing() -> BoundedView {
    BoundedView { content: Seq::empty(), produced_bytes: 0 }
}

/// What is read of a stream: the segments that are complete, what is captured of the next one,
/// and the bytes that cannot be told yet.
pub struct Reading {
    pub segments: Seq<SegmentView>,
    pub capture: BoundedView,
    pub pending: Seq<u8>,
}

proof fn lemma_mark(s: Seq<u8>, from: int)
    requires
        0 <= from,
    ensures
        match mark_from(s, from) {
            Some(at) => from <= at && marked(s, at) && forall|i: int|
                from <= i < at ==> !#[trigger] marked(s, i),
            None => forall|i: int| from <= i ==> !#[trigger] marked(s, i),
        },
    decreases s.len() - from,
{
    if from + 2 <= s.len() && !marked(s, from) {
        lemma_mark(s, from + 1);
    }
}

proof fn lemma_line_end(s: Seq<u8>, from: int)
    requires
        0 <= from,
    ensures
        match line_end_from(s, from) {
            Some(end) => from <= end < s.len() && s[end] == LINE_END && forall|i: int|
                from <= i < end ==> #[trigger] s[i] != LINE_END,
            None => forall|i: int| from <= i < s.len() ==> #[trigger] s[i] != LINE_END,
        },
    decreases s.len() - from,
{
    if from < s.len() && s[from] != LINE_END {
        lemma_line_end(s, from + 1);
    }
}

/// Reads a stream behind what was captured already. Only the last byte can be half a mark, so all
/// before it is output when no mark is there.
pub open spec fn read_stream(capture: BoundedView, s: Seq<u8>, bound: u64) -> Reading
    decreases s.len(),
{
    match mark_from(s, 0) {
        None => {
            let safe: int = if s.len() > 0 {
                s.len() - 1
            } else {
                0
            };
            Reading {
                segments: Seq::empty(),
                capture: absorbed(capture, s.take(safe), bound),
                pending: s.skip(safe),
            }
        },
        Some(at) => match line_end_from(s, at + 2) {
            None => Reading { segments: Seq::empty(), capture, pending: s },
            Some(end) => {
                if 0 <= at && at + 2 <= end < s.len() {
                    let first = SegmentView {
                        capture: absorbed(capture, s.take(at), bound),
                        status: line_status(s.subrange(at + 2, end)),
                    };
                    let rest = read_stream(nothing(), s.skip(end + 1), bound);
                    Reading { segments: seq![first] + rest.segments, ..rest }
                } else {
                    Reading { segments: Seq::empty(), capture, pending: s }
                }
            },
        },
    }
}

/// What is left when a stream ends: all that was pending is output, and the missing status says
/// that the kernel died.
pub open spec fn last_segment(capture: BoundedView, pending: Seq<u8>, bound: u64) -> SegmentView {
    SegmentView { capture: absorbed(capture, pending, bound), status: None }
}

/// A reader of one stream of a kernel. It lives as long as the stream: what stands behind a frame
/// is the beginning of the next segment.
pub struct FrameReader {
    capture: BoundedCapture,
    pending: Vec<u8>,
}

fn find_mark(data: &Vec<u8>, from: usize) -> (r: Option<usize>)
    requires
        from <= data@.len(),
    ensures
        match r {
            Some(at) => from <= at && at + 2 <= data@.len() && mark_from(
                data@.skip(from as int),
                0,
            ) == Some(at - from),
            None => mark_from(data@.skip(from as int), 0) is None,
        },
{
    let ghost rest = data@.skip(from as int);
    let count: usize = data.len();
    let mut i: usize = from;
    while i < count && count - i >= 2
        invariant
            from <= i <= count,
            count == data@.len(),
            rest == data@.skip(from as int),
            mark_from(rest, 0) == mark_from(rest, i - from),
        decreases count - i,
    {
        proof {
            assert(rest[i - from] == data@[i as int]);
            assert(rest[i - from + 1] == data@[i + 1]);
        }
        if data[i] == FRAME_MARK_BYTE && data[i + 1] == FRAME_MARK_BYTE {
            return Some(i);
        }
        i += 1;
    }
    None
}

fn find_line_end(data: &Vec<u8>, start: usize, from: usize) -> (r: Option<usize>)
    requires
        start <= from <= data@.len(),
    ensures
        match r {
            Some(end) => from <= end < data@.len() && line_end_from(
                data@.skip(start as int),
                from - start,
            ) == Some(end - start),
            None => line_end_from(data@.skip(start as int), from - start) is None,
        },
{
    let ghost rest = data@.skip(start as int);
    let mut i: usize = from;
    while i < data.len()
        invariant
            start <= from <= i <= data@.len(),
            rest == data@.skip(start as int),
            line_end_from(rest, from - start) == line_end_from(rest, i - start),
        decreases data@.len() - i,
    {
        proof {
            assert(rest[i - start] == data@[i as int]);
        }
        if data[i] == LINE_END {
            return Some(i);
        }
        i += 1;
    }
    None
}

fn read_line(line: &[u8]) -> (r: Option<FrameStatus>)
    ensures
        match r {
            Some(status) => line_status(line@) == Some(status@),
            None => line_status(line@) is None,
        },
{
    let text = from_utf8_lossy(line);
    match strip_prefix(text.as_str(), "done ") {
        None => None,
        Some(words) => match FrameStatus::parse(words.as_str()) {
            Ok(status) => Some(status),
            Err(_) => None,
        },
    }
}

fn part_of(data: &Vec<u8>, from: usize, to: usize) -> (r: Vec<u8>)
    requires
        from <= to <= data@.len(),
    ensures
        r@ == data@.subrange(from as int, to as int),
{
    let mut out: Vec<u8> = Vec::new();
    let mut i: usize = from;
    while i < to
        invariant
            from <= i <= to <= data@.len(),
            out@ =~= data@.subrange(from as int, i as int),
        decreases to - i,
    {
        out.push(data[i]);
        i += 1;
    }
    out
}

impl FrameReader {
    /// What is captured of the segment that is being read.
    pub closed spec fn captured(&self) -> BoundedView {
        self.capture@
    }

    /// The bytes that cannot be told yet.
    pub closed spec fn undecided(&self) -> Seq<u8> {
        self.pending@
    }

    /// A reader at the beginning of a stream.
    pub fn new() -> (r: FrameReader)
        ensures
            r.captured() == nothing(),
            r.undecided() == Seq::<u8>::empty(),
    {
        FrameReader { capture: BoundedCapture::new(), pending: Vec::new() }
    }

    /// Reads more of the stream, keeping up to `bound` bytes of each segment, and gives the
    /// segments that it completes.
    pub fn feed(&mut self, bytes: &[u8], bound: u64) -> (r: Vec<Segment>)
        ensures
            ({
                let reading = read_stream(
                    old(self).captured(),
                    old(self).undecided() + bytes@,
                    bound,
                );
                &&& segment_views(r@) == reading.segments
                &&& final(self).captured() == reading.capture
                &&& final(self).undecided() == reading.pending
            }),
    {
        let ghost before = self.capture@;
        let mut data: Vec<u8> = Vec::new();
        std::mem::swap(&mut data, &mut self.pending);
        push_bytes(&mut data, bytes);
        let ghost all = data@;
        let ghost whole = read_stream(before, all, bound);
        let mut out: Vec<Segment> = Vec::new();
        let mut from: usize = 0;
        proof {
            assert(all =~= old(self).undecided() + bytes@);
            assert(all.skip(0) =~= all);
            assert(segment_views(out@) =~= Seq::empty());
            assert(Seq::<SegmentView>::empty() + whole.segments =~= whole.segments);
        }
        let count: usize = data.len();
        loop
            invariant
                from <= data@.len(),
                count == data@.len(),
                data@ == all,
                whole == read_stream(
                    old(self).captured(),
                    old(self).undecided() + bytes@,
                    bound,
                ),
                ({
                    let rest = read_stream(self.capture@, all.skip(from as int), bound);
                    &&& whole.segments == segment_views(out@) + rest.segments
                    &&& whole.capture == rest.capture
                    &&& whole.pending == rest.pending
                }),
            decreases data@.len() - from,
        {
            let ghost rest = all.skip(from as int);
            proof {
                lemma_mark(rest, 0);
            }
            let at: usize = match find_mark(&data, from) {
                Some(at) => at,
                None => {
                    let left: usize = data.len() - from;
                    let safe: usize = if left > 0 {
                        left - 1
                    } else {
                        0
                    };
                    self.capture.absorb(data.as_slice(), from, from + safe, bound);
                    self.pending = part_of(&data, from + safe, data.len());
                    proof {
                        assert(rest.take(safe as int) =~= all.subrange(
                            from as int,
                            from + safe,
                        ));
                        assert(rest.skip(safe as int) =~= all.subrange(
                            from + safe,
                            all.len() as int,
                        ));
                        assert(segment_views(out@) + Seq::<SegmentView>::empty()
                            =~= segment_views(out@));
                    }
                    return out;
                },
            };
            let end: usize = match find_line_end(&data, from, at + 2) {
                Some(end) => end,
                None => {
                    self.pending = part_of(&data, from, data.len());
                    proof {
                        assert(rest =~= all.subrange(from as int, all.len() as int));
                        assert(segment_views(out@) + Seq::<SegmentView>::empty()
                            =~= segment_views(out@));
                    }
                    return out;
                },
            };
            let line = part_of(&data, at + 2, end);
            let status = read_line(line.as_slice());
            let mut capture = BoundedCapture::new();
            std::mem::swap(&mut capture, &mut self.capture);
            capture.absorb(data.as_slice(), from, at, bound);
            let ghost sent = segment_views(out@);
            let segment = Segment { capture, status };
            let ghost said = segment@;
            out.push(segment);
            proof {
                let a: int = at - from;
                let e: int = end - from;
                lemma_line_end(rest, a + 2);
                assert(all.subrange(from as int, at as int) =~= rest.take(a));
                assert(line@ =~= rest.subrange(a + 2, e));
                assert(all.skip(end + 1) =~= rest.skip(e + 1));
                assert(segment_views(out@) =~= sent.push(said));
                let tail = read_stream(nothing(), rest.skip(e + 1), bound);
                assert(sent + (seq![said] + tail.segments) =~= sent.push(said) + tail.segments);
                assert(self.capture@.content =~= nothing().content);
                assert(self.capture@ == nothing());
            }
            from = end + 1;
        }
    }

    /// Ends the stream: what is left is the last segment.
    pub fn finish(self, bound: u64) -> (r: Segment)
        ensures
            r@ == last_segment(self.captured(), self.undecided(), bound),
    {
        let mut capture = self.capture;
        let count: usize = self.pending.len();
        capture.absorb(self.pending.as_slice(), 0, count, bound);
        proof {
            assert(self.pending@.subrange(0, count as int) =~= self.pending@);
        }
        Segment { capture, status: None }
    }
}

/// The bytes of all pieces.
pub open spec fn joined(pieces: Seq<Seq<u8>>) -> Seq<u8>
    decreases pieces.len(),
{
    if pieces.len() == 0 {
        Seq::empty()
    } else {
        pieces[0] + joined(pieces.drop_first())
    }
}

/// The segments of a stream that comes in pieces and then ends.
pub open spec fn read_pieces(
    capture: BoundedView,
    pending: Seq<u8>,
    pieces: Seq<Seq<u8>>,
    bound: u64,
) -> Seq<SegmentView>
    decreases pieces.len(),
{
    if pieces.len() == 0 {
        seq![last_segment(capture, pending, bound)]
    } else {
        let reading = read_stream(capture, pending + pieces[0], bound);
        reading.segments + read_pieces(
            reading.capture,
            reading.pending,
            pieces.drop_first(),
            bound,
        )
    }
}

/// A stream that comes in pieces has the segments of the whole stream, wherever it is cut: through
/// a mark, a line or a character.
pub proof fn law_frames_do_not_depend_on_pieces(
    capture: BoundedView,
    pending: Seq<u8>,
    pieces: Seq<Seq<u8>>,
    bound: u64,
)
    requires
        read_stream(capture, pending, bound).pending == pending,
        read_stream(capture, pending, bound).capture == capture,
        read_stream(capture, pending, bound).segments == Seq::<SegmentView>::empty(),
    ensures
        ({
            let whole = read_stream(capture, pending + joined(pieces), bound);
            read_pieces(capture, pending, pieces, bound) == whole.segments.push(
                last_segment(whole.capture, whole.pending, bound),
            )
        }),
    decreases pieces.len(),
{
    let whole = read_stream(capture, pending + joined(pieces), bound);
    if pieces.len() == 0 {
        assert(pending + joined(pieces) =~= pending);
        assert(whole.segments.push(last_segment(whole.capture, whole.pending, bound)) =~= seq![
            last_segment(capture, pending, bound),
        ]);
    } else {
        let first = pending + pieces[0];
        let rest = joined(pieces.drop_first());
        let head = read_stream(capture, first, bound);
        let tail = read_stream(head.capture, head.pending + rest, bound);
        assert(pending + joined(pieces) =~= first + rest);
        lemma_cut(capture, first, rest, bound);
        lemma_settled(capture, first, bound);
        law_frames_do_not_depend_on_pieces(
            head.capture,
            head.pending,
            pieces.drop_first(),
            bound,
        );
        assert(head.segments + tail.segments.push(
            last_segment(tail.capture, tail.pending, bound),
        ) =~= (head.segments + tail.segments).push(
            last_segment(tail.capture, tail.pending, bound),
        ));
    }
}

/// What a reading leaves behind holds no frame: reading it again changes nothing.
proof fn lemma_settled(capture: BoundedView, s: Seq<u8>, bound: u64)
    ensures
        ({
            let reading = read_stream(capture, s, bound);
            let again = read_stream(reading.capture, reading.pending, bound);
            &&& again.segments == Seq::<SegmentView>::empty()
            &&& again.capture == reading.capture
            &&& again.pending == reading.pending
        }),
    decreases s.len(),
{
    lemma_mark(s, 0);
    match mark_from(s, 0) {
        None => {
            let reading = read_stream(capture, s, bound);
            assert(reading.pending.len() <= 1);
            assert(mark_from(reading.pending, 0) is None);
            assert(reading.pending.take(0) =~= Seq::empty());
            assert(reading.pending.skip(0) =~= reading.pending);
            assert(absorbed(reading.capture, Seq::empty(), bound).content
                =~= reading.capture.content);
        },
        Some(at) => {
            lemma_line_end(s, at + 2);
            match line_end_from(s, at + 2) {
                None => {},
                Some(end) => {
                    lemma_settled(nothing(), s.skip(end + 1), bound);
                },
            }
        },
    }
}

/// A stream that is cut in two is read as the whole stream would be, wherever it is cut.
proof fn lemma_cut(
    capture: BoundedView,
    first: Seq<u8>,
    second: Seq<u8>,
    bound: u64,
)
    ensures
        ({
            let whole = read_stream(capture, first + second, bound);
            let head = read_stream(capture, first, bound);
            let tail = read_stream(head.capture, head.pending + second, bound);
            &&& whole.segments == head.segments + tail.segments
            &&& last_segment(whole.capture, whole.pending, bound) == last_segment(
                tail.capture,
                tail.pending,
                bound,
            )
        }),
    decreases first.len(),
{
    let all = first + second;
    let whole = read_stream(capture, all, bound);
    let head = read_stream(capture, first, bound);
    let tail = read_stream(head.capture, head.pending + second, bound);
    lemma_mark(first, 0);
    lemma_mark(all, 0);
    match mark_from(first, 0) {
        None => {
            let safe: int = if first.len() > 0 {
                first.len() - 1
            } else {
                0
            };
            let x = first.take(safe);
            let y = head.pending + second;
            assert(all =~= x + y);
            assert forall|i: int| 0 <= i < safe implies !#[trigger] marked(all, i) by {
                assert(!marked(first, i));
                assert(all[i] == first[i] && all[i + 1] == first[i + 1]);
            }
            lemma_moved(capture, x, y, bound);
            assert(head.segments + tail.segments =~= tail.segments);
        },
        Some(at) => {
            assert(marked(all, at));
            assert forall|i: int| 0 <= i < at implies !#[trigger] marked(all, i) by {
                assert(!marked(first, i));
            }
            assert(mark_from(all, 0) == Some(at));
            lemma_line_end(first, at + 2);
            lemma_line_end(all, at + 2);
            match line_end_from(first, at + 2) {
                None => {
                    assert(head.segments + tail.segments =~= tail.segments);
                },
                Some(end) => {
                    assert(all[end] == first[end]);
                    assert forall|i: int| at + 2 <= i < end implies #[trigger] all[i]
                        != LINE_END by {
                        assert(all[i] == first[i]);
                    }
                    assert(line_end_from(all, at + 2) == Some(end));
                    assert(all.take(at) =~= first.take(at));
                    assert(all.subrange(at + 2, end) =~= first.subrange(at + 2, end));
                    assert(all.skip(end + 1) =~= first.skip(end + 1) + second);
                    lemma_cut(
                        nothing(),
                        first.skip(end + 1),
                        second,
                        bound,
                    );
                    let rest_head = read_stream(nothing(), first.skip(end + 1), bound);
                    let rest_tail = read_stream(
                        rest_head.capture,
                        rest_head.pending + second,
                        bound,
                    );
                    let said = SegmentView {
                        capture: absorbed(capture, first.take(at), bound),
                        status: line_status(first.subrange(at + 2, end)),
                    };
                    assert(seq![said] + (rest_head.segments + rest_tail.segments) =~= (seq![said]
                        + rest_head.segments) + rest_tail.segments);
                },
            }
        },
    }
}

/// Output in front of the first mark may be captured before the mark is seen.
proof fn lemma_moved(capture: BoundedView, x: Seq<u8>, y: Seq<u8>, bound: u64)
    requires
        forall|i: int| 0 <= i < x.len() ==> !#[trigger] marked(x + y, i),
        x.len() > 0 ==> y.len() > 0,
    ensures
        ({
            let whole = read_stream(capture, x + y, bound);
            let later = read_stream(absorbed(capture, x, bound), y, bound);
            &&& whole.segments == later.segments
            &&& last_segment(whole.capture, whole.pending, bound) == last_segment(
                later.capture,
                later.pending,
                bound,
            )
        }),
{
    let all = x + y;
    let n = x.len() as int;
    lemma_mark(all, 0);
    lemma_mark(y, 0);
    assert forall|i: int| 0 <= i implies #[trigger] marked(y, i) == marked(all, n + i) by {
        if i + 2 <= y.len() {
            assert(all[n + i] == y[i] && all[n + i + 1] == y[i + 1]);
        }
    }
    match mark_from(y, 0) {
        None => {
            assert(mark_from(all, 0) is None) by {
                if mark_from(all, 0) is Some {
                    let at = mark_from(all, 0)->Some_0;
                    assert(marked(all, at));
                    if at >= n {
                        assert(marked(y, at - n) == marked(all, n + (at - n)));
                    }
                }
            }
            let safe: int = if y.len() > 0 {
                y.len() - 1
            } else {
                0
            };
            if all.len() > 0 && y.len() > 0 {
                assert(all.take(n + safe) =~= x + y.take(safe));
                assert(all.skip(n + safe) =~= y.skip(safe));
                law_captures_do_not_depend_on_pieces(capture, x, y.take(safe), bound);
            } else {
                assert(x =~= Seq::empty());
                assert(all =~= y);
                assert(all.take(0) =~= x);
                assert(absorbed(capture, x, bound).content =~= capture.content);
                assert(y.take(0) =~= x);
            }
        },
        Some(at) => {
            assert(marked(all, n + at));
            assert forall|i: int| 0 <= i < n + at implies !#[trigger] marked(all, i) by {
                if i >= n {
                    assert(marked(y, i - n) == marked(all, n + (i - n)));
                }
            }
            assert(mark_from(all, 0) == Some(n + at));
            lemma_line_end(y, at + 2);
            lemma_line_end(all, n + at + 2);
            assert forall|i: int| 0 <= i < y.len() implies #[trigger] y[i] == all[n + i] by {}
            match line_end_from(y, at + 2) {
                None => {
                    assert(line_end_from(all, n + at + 2) is None) by {
                        if line_end_from(all, n + at + 2) is Some {
                            let e = line_end_from(all, n + at + 2)->Some_0;
                            assert(y[e - n] == all[n + (e - n)]);
                        }
                    }
                    law_captures_do_not_depend_on_pieces(capture, x, y, bound);
                },
                Some(end) => {
                    assert(all[n + end] == y[end]);
                    assert(line_end_from(all, n + at + 2) == Some(n + end)) by {
                        let e = line_end_from(all, n + at + 2)->Some_0;
                        if e < n + end {
                            assert(y[e - n] == all[n + (e - n)]);
                        }
                    }
                    assert(all.take(n + at) =~= x + y.take(at));
                    law_captures_do_not_depend_on_pieces(capture, x, y.take(at), bound);
                    assert(all.subrange(n + at + 2, n + end) =~= y.subrange(at + 2, end));
                    assert(all.skip(n + end + 1) =~= y.skip(end + 1));
                },
            }
        },
    }
}

/// A frame ends the segment before it: what stands in front of the first mark is that segment's
/// output, the line behind the mark says how it ended, and what stands behind the line is read as
/// the next segment from its beginning.
pub proof fn law_frames_end_their_segment(
    output: Seq<u8>,
    line: Seq<u8>,
    rest: Seq<u8>,
    bound: u64,
)
    requires
        forall|i: int| 0 <= i < output.len() ==> #[trigger] output[i] != FRAME_MARK_BYTE,
        forall|i: int| 0 <= i < line.len() ==> #[trigger] line[i] != LINE_END,
    ensures
        ({
            let stream = output + seq![FRAME_MARK_BYTE, FRAME_MARK_BYTE] + line + seq![LINE_END]
                + rest;
            let read = read_stream(nothing(), stream, bound);
            let behind = read_stream(nothing(), rest, bound);
            &&& read.segments.len() == behind.segments.len() + 1
            &&& read.segments[0].capture == absorbed(nothing(), output, bound)
            &&& read.segments[0].status == line_status(line)
            &&& read.segments.skip(1) == behind.segments
            &&& read.capture == behind.capture
            &&& read.pending == behind.pending
        }),
{
    let mark = seq![FRAME_MARK_BYTE, FRAME_MARK_BYTE];
    let stream = output + mark + line + seq![LINE_END] + rest;
    let n = output.len() as int;
    let end = n + 2 + line.len();
    assert(stream[n] == mark[0] && stream[n + 1] == mark[1]);
    assert(marked(stream, n));
    lemma_mark(stream, 0);
    let at = mark_from(stream, 0)->Some_0;
    assert(at == n) by {
        if at < n {
            assert(stream[at] == output[at]);
        }
    }
    assert(stream[end] == seq![LINE_END][0]);
    lemma_line_end(stream, n + 2);
    let found = line_end_from(stream, n + 2)->Some_0;
    assert(found == end) by {
        if found < end {
            assert(stream[found] == line[found - n - 2]);
        }
    }
    assert(stream.take(n) =~= output);
    assert(stream.subrange(n + 2, end) =~= line);
    assert(stream.skip(end + 1) =~= rest);
    let read = read_stream(nothing(), stream, bound);
    let behind = read_stream(nothing(), rest, bound);
    assert(read.segments.skip(1) =~= behind.segments);
}

/// A line says how a segment ended exactly where it is the word for an end and words that name one;
/// a stream that stops without such a line ended with its kernel.
pub proof fn law_lines_name_the_end(line: Seq<u8>, words: Seq<char>)
    requires
        lossy_text(line) == "done "@ + words,
    ensures
        status_named(words) is Ok ==> line_status(line) == Some(status_named(words)->Ok_0),
        status_named(words) is Err ==> line_status(line) is None,
{
    let text = lossy_text(line);
    assert(text.subrange(0, "done "@.len() as int) =~= "done "@);
    assert(text.skip("done "@.len() as int) =~= words);
}

/// Output that was cut short by the end of its stream is all kept, within the bound, and has no
/// status.
pub proof fn law_streams_that_stop_have_no_status(
    capture: BoundedView,
    pending: Seq<u8>,
    bound: u64,
)
    ensures
        last_segment(capture, pending, bound).status is None,
        last_segment(capture, pending, bound).capture == absorbed(capture, pending, bound),
{
}

} // verus!
