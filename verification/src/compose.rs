//! One styled line from a source line: its spans, cut where decorations
//! begin and end, each piece in its own style with the decorations that cover
//! it laid over in order.

use crate::message::ByteRange;
use crate::snapshot::{spans_text, SnapshotLine, SpanView};
use crate::style::{patch, plain, plain_style, style_patch};
use crate::text::{
    a_seam_is_a_boundary, boundary_of_back, boundary_of_front, byte_slice, bytes_of_concat, slice,
};
use ratatui::style::Style;
use vstd::prelude::*;
use vstd::utf8::{encode_utf8, is_char_boundary};

verus! {

/// A run of text in one terminal style.
#[derive(Debug, PartialEq)]
pub struct Span {
    pub content: String,
    pub style: Style,
}

/// What a [`Span`] holds.
pub struct SpanOut {
    pub text: Seq<char>,
    pub style: Style,
}

impl View for Span {
    type V = SpanOut;

    open spec fn view(&self) -> SpanOut {
        SpanOut { text: self.content@, style: self.style }
    }
}

impl Clone for Span {
    fn clone(&self) -> (copy: Self)
        ensures
            copy == *self,
    {
        Span { content: self.content.clone(), style: self.style }
    }
}

/// The contents of a run of spans.
pub open spec fn outs(spans: Seq<Span>) -> Seq<SpanOut> {
    spans.map_values(|span: Span| span@)
}

/// Where a line stands in its row.
#[derive(Debug, Clone, Copy, PartialEq, Eq, Structural)]
pub enum Alignment {
    Left,
    Center,
    Right,
}

/// A line of terminal text: its spans, the style under all of them, and where
/// it stands, if it says so.
#[derive(Debug, PartialEq)]
pub struct Line {
    pub spans: Vec<Span>,
    pub style: Style,
    pub alignment: Option<Alignment>,
}

/// What a [`Line`] holds.
pub struct LineOut {
    pub spans: Seq<SpanOut>,
    pub style: Style,
    pub alignment: Option<Alignment>,
}

impl View for Line {
    type V = LineOut;

    open spec fn view(&self) -> LineOut {
        LineOut { spans: outs(self.spans@), style: self.style, alignment: self.alignment }
    }
}

/// A line that is its spans and nothing else.
pub open spec fn bare(spans: Seq<SpanOut>) -> LineOut {
    LineOut { spans, style: plain_style(), alignment: None }
}

/// A span that a spinner animates: which line and span it is, and the style
/// its spinner names.
#[derive(Debug, PartialEq)]
pub struct SpinnerLine {
    pub line: usize,
    pub span: usize,
    pub style: Option<String>,
}

impl SpinnerLine {
    /// A spinner without a style of its own.
    pub fn new(line: usize, span: usize) -> (spinner: Self)
        ensures
            spinner == (SpinnerLine { line, span, style: None }),
    {
        SpinnerLine { line, span, style: None }
    }
}

/// How the theme draws a source span: in a style, or as a spinner.
pub enum Face {
    Styled(Style),
    Spinner { style: Option<String>, span: Span },
}

/// A decoration of one line: the bytes it covers and the style it lays over
/// them.
pub struct Mark {
    pub bytes: ByteRange,
    pub style: Style,
}

/// How many bytes the spans hold.
pub open spec fn line_bytes(spans: Seq<SpanView>) -> nat {
    encode_utf8(spans_text(spans)).len()
}

/// The nearer of two cuts beyond a position.
pub open spec fn nearer(best: nat, cut: nat, pos: nat) -> nat {
    if pos < cut < best {
        cut
    } else {
        best
    }
}

/// The first place after `pos` where a mark begins or ends, or `end`.
pub open spec fn next_cut(marks: Seq<Mark>, pos: nat, end: nat) -> nat
    decreases marks.len(),
{
    if marks.len() == 0 {
        end
    } else {
        let best = next_cut(marks.drop_last(), pos, end);
        let last = marks.last().bytes;
        nearer(nearer(best, last.start as nat, pos), last.end as nat, pos)
    }
}

/// Whether a mark covers the bytes from `a` to `b`.
pub open spec fn covers(mark: Mark, a: nat, b: nat) -> bool {
    mark.bytes.start <= a && b <= mark.bytes.end
}

/// A style with the marks that cover the bytes from `a` to `b` laid over it,
/// in order.
pub open spec fn patched(style: Style, marks: Seq<Mark>, a: nat, b: nat) -> Style
    decreases marks.len(),
{
    if marks.len() == 0 {
        style
    } else {
        let under = patched(style, marks.drop_last(), a, b);
        if covers(marks.last(), a, b) {
            style_patch(under, marks.last().style)
        } else {
            under
        }
    }
}

/// The pieces of a span's text from `pos` to its end, cut at every mark. The
/// span starts at byte `start` of the line.
pub open spec fn cut_pieces(
    text: Seq<char>,
    start: nat,
    pos: nat,
    style: Style,
    marks: Seq<Mark>,
) -> Seq<SpanOut>
    decreases start + encode_utf8(text).len() - pos,
{
    let end = start + encode_utf8(text).len();
    let cut = next_cut(marks, pos, end);
    if pos < cut <= end {
        seq![
            SpanOut {
                text: byte_slice(text, pos - start, cut - start),
                style: patched(style, marks, pos, cut),
            },
        ] + cut_pieces(text, start, cut, style, marks)
    } else {
        seq![]
    }
}

/// What a span in one style becomes: its pieces, or itself when it is empty.
pub open spec fn pieces(text: Seq<char>, start: nat, style: Style, marks: Seq<Mark>) -> Seq<
    SpanOut,
> {
    if encode_utf8(text).len() == 0 {
        seq![SpanOut { text: seq![], style }]
    } else {
        cut_pieces(text, start, start, style, marks)
    }
}

/// Whether a mark reaches into the bytes from `start` to `end`.
pub open spec fn touched(marks: Seq<Mark>, start: nat, end: nat) -> bool {
    exists|k: int|
        0 <= k < marks.len() && (#[trigger] marks[k]).bytes.start < end && start
            < marks[k].bytes.end
}

/// A composed line: its spans, and which of them are spinners.
pub struct Composed {
    pub spans: Seq<SpanOut>,
    pub spinners: Seq<SpinnerLine>,
}

/// A line composed from its source spans and how the theme draws each. A mark
/// may not reach into a spinner: its text is not the source's.
pub open spec fn composed(spans: Seq<SpanView>, faces: Seq<Face>, marks: Seq<Mark>) -> Option<
    Composed,
>
    decreases spans.len(),
{
    if spans.len() == 0 {
        Some(Composed { spans: seq![], spinners: seq![] })
    } else {
        let start = line_bytes(spans.drop_last());
        let end = line_bytes(spans);
        match composed(spans.drop_last(), faces.drop_last(), marks) {
            None => None,
            Some(done) => match faces.last() {
                Face::Spinner { style, span } => if touched(marks, start, end) {
                    None
                } else {
                    Some(
                        Composed {
                            spans: done.spans.push(span@),
                            spinners: done.spinners.push(
                                SpinnerLine { line: 0, span: done.spans.len() as usize, style },
                            ),
                        },
                    )
                },
                Face::Styled(style) => Some(
                    Composed {
                        spans: done.spans + pieces(spans.last().text, start, style, marks),
                        spinners: done.spinners,
                    },
                ),
            },
        }
    }
}

/// Where a mark begins and ends is between characters of the text.
pub open spec fn on_boundaries(text: Seq<char>, bytes: ByteRange) -> bool {
    &&& is_char_boundary(encode_utf8(text), bytes.start as int)
    &&& is_char_boundary(encode_utf8(text), bytes.end as int)
}

/// Every mark is cut between characters of the text.
pub open spec fn marks_fit(text: Seq<char>, marks: Seq<Mark>) -> bool {
    forall|k: int| 0 <= k < marks.len() ==> on_boundaries(text, (#[trigger] marks[k]).bytes)
}

/// The next cut is the end or where a mark begins or ends, and no mark begins
/// or ends before it.
pub proof fn next_cut_is_next(marks: Seq<Mark>, pos: nat, end: nat)
    requires
        pos < end,
    ensures
        pos < next_cut(marks, pos, end) <= end,
        next_cut(marks, pos, end) == end || exists|k: int|
            0 <= k < marks.len() && ((#[trigger] marks[k]).bytes.start == next_cut(marks, pos, end)
                || marks[k].bytes.end == next_cut(marks, pos, end)),
        forall|k: int|
            0 <= k < marks.len() ==> {
                &&& !(pos < (#[trigger] marks[k]).bytes.start < next_cut(marks, pos, end))
                &&& !(pos < marks[k].bytes.end < next_cut(marks, pos, end))
            },
    decreases marks.len(),
{
    if marks.len() > 0 {
        let rest = marks.drop_last();
        next_cut_is_next(rest, pos, end);
        let best = next_cut(rest, pos, end);
        let cut = next_cut(marks, pos, end);
        assert(marks[marks.len() - 1] == marks.last());
        if cut == best && best != end {
            let k = choose|k: int|
                0 <= k < rest.len() && ((#[trigger] rest[k]).bytes.start == best
                    || rest[k].bytes.end == best);
            assert(marks[k] == rest[k]);
        }
        assert forall|k: int| 0 <= k < marks.len() implies {
            &&& !(pos < (#[trigger] marks[k]).bytes.start < cut)
            &&& !(pos < marks[k].bytes.end < cut)
        } by {
            if k < rest.len() {
                assert(marks[k] == rest[k]);
            }
        }
    }
}

/// A cut inside a span lies between characters of the span's text.
proof fn cut_in_span(
    spans: Seq<SpanView>,
    k: int,
    marks: Seq<Mark>,
    pos: nat,
)
    requires
        0 <= k < spans.len(),
        marks_fit(spans_text(spans), marks),
        line_bytes(spans.take(k)) <= pos < line_bytes(spans.take(k + 1)),
    ensures
        ({
            let start = line_bytes(spans.take(k));
            let end = line_bytes(spans.take(k + 1));
            let cut = next_cut(marks, pos, end);
            &&& pos < cut <= end
            &&& is_char_boundary(encode_utf8(spans[k].text), cut - start)
        }),
{
    let start = line_bytes(spans.take(k));
    let end = line_bytes(spans.take(k + 1));
    let cut = next_cut(marks, pos, end);
    let before = spans_text(spans.take(k));
    let text = spans[k].text;
    next_cut_is_next(marks, pos, end);
    span_in_line(spans, k);
    let after = choose|after: Seq<char>| spans_text(spans) == before + text + after;
    assert(spans_text(spans) =~= before + (text + after));
    bytes_of_concat(before, text);
    if cut == end {
        a_seam_is_a_boundary(text, seq![]);
        assert(text + Seq::<char>::empty() =~= text);
    } else {
        let m = choose|m: int|
            0 <= m < marks.len() && ((#[trigger] marks[m]).bytes.start == cut
                || marks[m].bytes.end == cut);
        assert(on_boundaries(spans_text(spans), marks[m].bytes));
        boundary_of_back(before, text + after, cut as int);
        boundary_of_front(text, after, cut - start);
    }
}

/// The text of a line is what comes before a span, the span, and what follows.
pub proof fn span_in_line(spans: Seq<SpanView>, k: int)
    requires
        0 <= k < spans.len(),
    ensures
        spans_text(spans.take(k + 1)) == spans_text(spans.take(k)) + spans[k].text,
        exists|after: Seq<char>|
            spans_text(spans) == spans_text(spans.take(k)) + spans[k].text + after,
    decreases spans.len(),
{
    let last = spans.len() - 1;
    assert(spans.take(k + 1).drop_last() =~= spans.take(k));
    if k == last {
        assert(spans.take(k + 1) =~= spans);
        assert(spans_text(spans) =~= spans_text(spans.take(k)) + spans[k].text
            + Seq::<char>::empty());
    } else {
        let rest = spans.drop_last();
        span_in_line(rest, k);
        assert(rest.take(k) =~= spans.take(k));
        let after = choose|after: Seq<char>|
            spans_text(rest) == spans_text(rest.take(k)) + rest[k].text + after;
        assert(spans_text(spans) =~= spans_text(spans.take(k)) + spans[k].text + (after
            + spans.last().text));
    }
}

/// A prefix of a line has no more bytes than all of it.
pub proof fn line_bytes_grow(spans: Seq<SpanView>, k: int)
    requires
        0 <= k < spans.len(),
    ensures
        line_bytes(spans.take(k + 1)) == line_bytes(spans.take(k)) + encode_utf8(
            spans[k].text,
        ).len(),
        line_bytes(spans.take(k + 1)) <= line_bytes(spans),
{
    span_in_line(spans, k);
    let before = spans_text(spans.take(k));
    let after = choose|after: Seq<char>| spans_text(spans) == before + spans[k].text + after;
    bytes_of_concat(before, spans[k].text);
    bytes_of_concat(before + spans[k].text, after);
}

/// The first place after `pos` where a mark begins or ends, or `end`.
fn find_cut(marks: &Vec<Mark>, pos: usize, end: usize) -> (cut: usize)
    ensures
        cut == next_cut(marks@, pos as nat, end as nat),
{
    let mut cut = end;
    let mut i: usize = 0;
    assert(marks@.take(0) =~= seq![]);
    while i < marks.len()
        invariant
            i <= marks@.len(),
            cut == next_cut(marks@.take(i as int), pos as nat, end as nat),
        decreases marks@.len() - i,
    {
        assert(marks@.take(i + 1).drop_last() =~= marks@.take(i as int));
        let bytes = marks[i].bytes;
        if pos < bytes.start && bytes.start < cut {
            cut = bytes.start;
        }
        if pos < bytes.end && bytes.end < cut {
            cut = bytes.end;
        }
        i += 1;
    }
    assert(marks@.take(i as int) =~= marks@);
    cut
}

/// A style with the marks that cover the bytes from `a` to `b` laid over it.
fn lay_over(style: Style, marks: &Vec<Mark>, a: usize, b: usize) -> (laid: Style)
    ensures
        laid == patched(style, marks@, a as nat, b as nat),
{
    let mut laid = style;
    let mut i: usize = 0;
    assert(marks@.take(0) =~= seq![]);
    while i < marks.len()
        invariant
            i <= marks@.len(),
            laid == patched(style, marks@.take(i as int), a as nat, b as nat),
        decreases marks@.len() - i,
    {
        assert(marks@.take(i + 1).drop_last() =~= marks@.take(i as int));
        let bytes = marks[i].bytes;
        if bytes.start <= a && b <= bytes.end {
            laid = patch(laid, marks[i].style);
        }
        i += 1;
    }
    assert(marks@.take(i as int) =~= marks@);
    laid
}

/// Whether a mark reaches into the bytes from `start` to `end`.
fn reaches_into(marks: &Vec<Mark>, start: usize, end: usize) -> (reaches: bool)
    ensures
        reaches == touched(marks@, start as nat, end as nat),
{
    let mut i: usize = 0;
    while i < marks.len()
        invariant
            i <= marks@.len(),
            forall|k: int|
                0 <= k < i ==> !((#[trigger] marks@[k]).bytes.start < end && start
                    < marks@[k].bytes.end),
        decreases marks@.len() - i,
    {
        let bytes = marks[i].bytes;
        if bytes.start < end && start < bytes.end {
            assert(touched(marks@, start as nat, end as nat));
            return true;
        }
        i += 1;
    }
    false
}

/// Appends the pieces of the source span `k`, which starts at byte `start`.
fn push_pieces(
    out: &mut Vec<Span>,
    line: &SnapshotLine,
    k: usize,
    start: usize,
    style: Style,
    marks: &Vec<Mark>,
)
    requires
        k < line.spans@.len(),
        start == line_bytes(line@.take(k as int)),
        line_bytes(line@) <= usize::MAX,
        marks_fit(spans_text(line@), marks@),
    ensures
        outs(final(out)@) == outs(old(out)@) + pieces(
            line@[k as int].text,
            start as nat,
            style,
            marks@,
        ),
{
    let source = line.spans[k].text.as_str();
    let ghost text = line@[k as int].text;
    let ghost before = outs(out@);
    proof {
        line_bytes_grow(line@, k as int);
    }
    let end = start + source.as_bytes().len();
    if start == end {
        assert(encode_utf8(text).len() == 0);
        out.push(Span { content: String::new(), style });
        assert(outs(out@) =~= before + pieces(text, start as nat, style, marks@));
        return ;
    }
    let mut pos = start;
    proof {
        let ghost rest = cut_pieces(text, start as nat, pos as nat, style, marks@);
        assert(before + rest == outs(out@) + rest);
        a_seam_is_a_boundary(seq![], text);
        assert(Seq::<char>::empty() + text =~= text);
        assert(encode_utf8(Seq::<char>::empty()) =~= seq![]);
    }
    while pos < end
        invariant
            k < line.spans@.len(),
            text == line@[k as int].text,
            text == source@,
            start == line_bytes(line@.take(k as int)),
            end == line_bytes(line@.take(k + 1)),
            end == start + encode_utf8(text).len(),
            marks_fit(spans_text(line@), marks@),
            start <= pos <= end,
            is_char_boundary(encode_utf8(text), pos - start),
            outs(out@) + cut_pieces(text, start as nat, pos as nat, style, marks@) == before
                + cut_pieces(text, start as nat, start as nat, style, marks@),
        decreases end - pos,
    {
        proof {
            cut_in_span(line@, k as int, marks@, pos as nat);
        }
        let cut = find_cut(marks, pos, end);
        let laid = lay_over(style, marks, pos, cut);
        let piece = Span { content: slice(source, pos - start, cut - start), style: laid };
        let ghost so_far = outs(out@);
        let ghost rest = cut_pieces(text, start as nat, cut as nat, style, marks@);
        out.push(piece);
        proof {
            assert(outs(out@) =~= so_far.push(piece@));
            assert(cut_pieces(text, start as nat, pos as nat, style, marks@) == seq![piece@]
                + rest);
            assert(outs(out@) + rest =~= so_far + (seq![piece@] + rest));
        }
        pos = cut;
    }
    proof {
        assert(cut_pieces(text, start as nat, pos as nat, style, marks@) == Seq::<SpanOut>::empty());
        assert(outs(out@) + Seq::<SpanOut>::empty() =~= outs(out@));
    }
}

/// Composes a line from its source and how the theme draws each span, `None`
/// when a mark reaches into a spinner.
pub fn render_line(line: &SnapshotLine, faces: &Vec<Face>, marks: &Vec<Mark>) -> (made: Option<
    (Line, Vec<SpinnerLine>),
>)
    requires
        faces@.len() == line.spans@.len(),
        line_bytes(line@) <= usize::MAX,
        marks_fit(spans_text(line@), marks@),
    ensures
        match made {
            Some((made, spinners)) => made@ == bare(made@.spans) && composed(
                line@,
                faces@,
                marks@,
            ) == Some(Composed { spans: made@.spans, spinners: spinners@ }),
            None => composed(line@, faces@, marks@) is None,
        },
{
    let mut spans: Vec<Span> = Vec::new();
    let mut spinners: Vec<SpinnerLine> = Vec::new();
    let mut start: usize = 0;
    let mut i: usize = 0;
    proof {
        assert(line@.take(0) =~= seq![]);
        assert(faces@.take(0) =~= seq![]);
        assert(encode_utf8(Seq::<char>::empty()) =~= seq![]);
        assert(outs(spans@) =~= seq![]);
    }
    while i < line.spans.len()
        invariant
            faces@.len() == line.spans@.len(),
            line_bytes(line@) <= usize::MAX,
            marks_fit(spans_text(line@), marks@),
            i <= line.spans@.len(),
            start == line_bytes(line@.take(i as int)),
            composed(line@.take(i as int), faces@.take(i as int), marks@) == Some(
                Composed { spans: outs(spans@), spinners: spinners@ },
            ),
        decreases line.spans@.len() - i,
    {
        let ghost so_far = composed(line@.take(i as int), faces@.take(i as int), marks@);
        proof {
            line_bytes_grow(line@, i as int);
            assert(line@.take(i + 1).drop_last() =~= line@.take(i as int));
            assert(line@.take(i + 1).last() == line@[i as int]);
            assert(faces@.take(i + 1).drop_last() =~= faces@.take(i as int));
            assert(faces@.take(i + 1).last() == faces@[i as int]);
        }
        let end = start + line.spans[i].text.as_str().as_bytes().len();
        match &faces[i] {
            Face::Spinner { style, span } => {
                if reaches_into(marks, start, end) {
                    proof {
                        composed_stays_none(line@, faces@, marks@, i + 1);
                    }
                    return None;
                }
                let ghost before = spans@;
                spinners.push(SpinnerLine { line: 0, span: spans.len(), style: style.clone() });
                spans.push(span.clone());
                assert(outs(spans@) =~= outs(before).push(span@));
            },
            Face::Styled(style) => {
                push_pieces(&mut spans, line, i, start, *style, marks);
            },
        }
        start = end;
        i += 1;
    }
    proof {
        assert(line@.take(i as int) =~= line@);
        assert(faces@.take(i as int) =~= faces@);
    }
    Some((Line { spans, style: plain(), alignment: None }, spinners))
}

/// What cannot be composed of a prefix cannot be composed of the whole.
proof fn composed_stays_none(spans: Seq<SpanView>, faces: Seq<Face>, marks: Seq<Mark>, k: int)
    requires
        faces.len() == spans.len(),
        0 <= k <= spans.len(),
        composed(spans.take(k), faces.take(k), marks) is None,
    ensures
        composed(spans, faces, marks) is None,
    decreases spans.len(),
{
    if k == spans.len() {
        assert(spans.take(k) =~= spans);
        assert(faces.take(k) =~= faces);
    } else {
        assert(spans.drop_last().take(k) =~= spans.take(k));
        assert(faces.drop_last().take(k) =~= faces.take(k));
        composed_stays_none(spans.drop_last(), faces.drop_last(), marks, k);
    }
}

} // verus!
