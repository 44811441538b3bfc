//! What holds of every composed line and every laid-out block.

use crate::body::bytes_cover_chars;
use crate::compose::{
    bare, composed, covers, cut_pieces, line_bytes, marks_fit, next_cut, next_cut_is_next,
    on_boundaries, patched, pieces, span_in_line, Composed, Face, LineOut, Mark, SpanOut,
    SpinnerLine,
};
use crate::layout::{
    all_faces_fit, composed_lines, composed_spinners, first_instructions, first_tool, height,
    laid_out, laid_out_is_as_high, lay_next, line_outs, placeholder, refused_stays_refused, Laid,
};
use crate::place::{
    body_at, drawn, faces_fit, line_composed, marks_of, moved_down, Faces, RawOut, RenderObject,
    ToolLines, MAX_RAW_HEIGHT, MAX_RAW_WIDTH,
};
use crate::raw::verdict;
use crate::snapshot::{spans_text, SpanView};
use crate::text::{
    a_seam_is_a_boundary, boundary_of_back, boundary_of_front, byte_slice, bytes_of_concat,
    bytes_tell_texts_apart,
};
use ratatui::style::Style;
use vstd::prelude::*;
use vstd::utf8::{decode_utf8, encode_utf8, is_char_boundary};

verus! {

/// A decoration covers a piece or misses it: none begins or ends inside one.
pub proof fn a_decoration_covers_a_piece_or_misses_it(
    marks: Seq<Mark>,
    pos: nat,
    end: nat,
    k: int,
)
    requires
        pos < end,
        0 <= k < marks.len(),
    ensures
        ({
            let cut = next_cut(marks, pos, end);
            ||| covers(marks[k], pos, cut)
            ||| marks[k].bytes.end <= pos
            ||| cut <= marks[k].bytes.start
        }),
{
    next_cut_is_next(marks, pos, end);
}

/// The text of drawn spans.
pub open spec fn outs_text(spans: Seq<SpanOut>) -> Seq<char>
    decreases spans.len(),
{
    if spans.len() == 0 {
        seq![]
    } else {
        outs_text(spans.drop_last()) + spans.last().text
    }
}

proof fn outs_text_concat(a: Seq<SpanOut>, b: Seq<SpanOut>)
    ensures
        outs_text(a + b) == outs_text(a) + outs_text(b),
    decreases b.len(),
{
    if b.len() == 0 {
        assert(a + b =~= a);
    } else {
        outs_text_concat(a, b.drop_last());
        assert((a + b).drop_last() =~= a + b.drop_last());
        assert((a + b).last() == b.last());
        assert(outs_text(a + b) =~= outs_text(a) + outs_text(b));
    }
}

/// Every mark that begins or ends inside a span does so between characters.
pub open spec fn cuts_fit(text: Seq<char>, start: nat, marks: Seq<Mark>) -> bool {
    forall|k: int|
        0 <= k < marks.len() ==> {
            let bytes = (#[trigger] marks[k]).bytes;
            let end = start + encode_utf8(text).len();
            &&& start < bytes.start < end ==> is_char_boundary(
                encode_utf8(text),
                bytes.start - start,
            )
            &&& start < bytes.end < end ==> is_char_boundary(encode_utf8(text), bytes.end - start)
        }
}

proof fn slices_join(text: Seq<char>, i: int, j: int, k: int)
    requires
        0 <= i <= j <= k <= encode_utf8(text).len(),
        is_char_boundary(encode_utf8(text), i),
        is_char_boundary(encode_utf8(text), j),
        is_char_boundary(encode_utf8(text), k),
    ensures
        byte_slice(text, i, j) + byte_slice(text, j, k) == byte_slice(text, i, k),
{
    slice_has_bytes(text, i, j);
    slice_has_bytes(text, j, k);
    slice_has_bytes(text, i, k);
    bytes_of_concat(byte_slice(text, i, j), byte_slice(text, j, k));
    assert(encode_utf8(text).subrange(i, j) + encode_utf8(text).subrange(j, k) =~= encode_utf8(
        text,
    ).subrange(i, k));
    bytes_tell_texts_apart(
        byte_slice(text, i, j) + byte_slice(text, j, k),
        byte_slice(text, i, k),
    );
}

/// A slice between character boundaries has the bytes it is cut from.
pub(crate) proof fn slice_has_bytes(text: Seq<char>, i: int, j: int)
    requires
        0 <= i <= j <= encode_utf8(text).len(),
        is_char_boundary(encode_utf8(text), i),
        is_char_boundary(encode_utf8(text), j),
    ensures
        encode_utf8(byte_slice(text, i, j)) == encode_utf8(text).subrange(i, j),
{
    let bytes = encode_utf8(text);
    vstd::utf8::encode_utf8_valid_utf8(text);
    vstd::utf8::valid_utf8_split(bytes, j);
    let head = bytes.subrange(0, j);
    vstd::utf8::decode_utf8_split(bytes, j);
    vstd::utf8::decode_utf8_encode_utf8(head);
    let tail = bytes.subrange(j, bytes.len() as int);
    vstd::utf8::decode_utf8_encode_utf8(tail);
    bytes_of_concat(decode_utf8(head), decode_utf8(tail));
    assert(head + tail =~= bytes);
    bytes_tell_texts_apart(decode_utf8(head) + decode_utf8(tail), text);
    boundary_of_front(decode_utf8(head), decode_utf8(tail), i);
    vstd::utf8::valid_utf8_split(head, i);
    assert(head.subrange(i, head.len() as int) =~= bytes.subrange(i, j));
    vstd::utf8::decode_utf8_encode_utf8(bytes.subrange(i, j));
}

proof fn cut_pieces_text(text: Seq<char>, start: nat, pos: nat, style: Style, marks: Seq<Mark>)
    requires
        cuts_fit(text, start, marks),
        start <= pos <= start + encode_utf8(text).len(),
        is_char_boundary(encode_utf8(text), pos - start),
    ensures
        outs_text(cut_pieces(text, start, pos, style, marks)) == byte_slice(
            text,
            pos - start,
            encode_utf8(text).len() as int,
        ),
    decreases start + encode_utf8(text).len() - pos,
{
    let len = encode_utf8(text).len() as int;
    let end = start + encode_utf8(text).len();
    a_seam_is_a_boundary(text, seq![]);
    assert(text + Seq::<char>::empty() =~= text);
    if pos < end {
        next_cut_is_next(marks, pos, end);
        let cut = next_cut(marks, pos, end);
        assert(is_char_boundary(encode_utf8(text), cut - start)) by {
            if cut != end {
                let m = choose|m: int|
                    0 <= m < marks.len() && ((#[trigger] marks[m]).bytes.start == cut
                        || marks[m].bytes.end == cut);
                assert(marks[m].bytes.start == cut || marks[m].bytes.end == cut);
            }
        }
        cut_pieces_text(text, start, cut, style, marks);
        let rest = cut_pieces(text, start, cut, style, marks);
        let piece = SpanOut {
            text: byte_slice(text, pos - start, cut - start),
            style: patched(style, marks, pos, cut),
        };
        outs_text_concat(seq![piece], rest);
        assert(seq![piece].drop_last() =~= seq![]);
        assert(outs_text(seq![piece].drop_last()) == Seq::<char>::empty());
        assert(outs_text(seq![piece]) =~= piece.text);
        slices_join(text, pos - start, cut - start, len);
    } else {
        assert(cut_pieces(text, start, pos, style, marks) =~= seq![]);
        assert(encode_utf8(text).subrange(len, len) =~= seq![]);
        assert(encode_utf8(Seq::<char>::empty()) =~= seq![]);
        vstd::utf8::encode_utf8_decode_utf8(Seq::<char>::empty());
    }
}

/// Cutting a span at its decorations loses and adds no text.
pub proof fn cutting_keeps_the_text(text: Seq<char>, start: nat, style: Style, marks: Seq<Mark>)
    requires
        cuts_fit(text, start, marks),
    ensures
        outs_text(pieces(text, start, style, marks)) == text,
{
    if encode_utf8(text).len() == 0 {
        bytes_cover_chars(text);
        assert(text =~= seq![]);
        let one = pieces(text, start, style, marks);
        assert(one.drop_last() =~= seq![]);
        assert(outs_text(one.drop_last()) == Seq::<char>::empty());
        assert(outs_text(one) =~= text);
    } else {
        a_seam_is_a_boundary(seq![], text);
        assert(Seq::<char>::empty() + text =~= text);
        assert(encode_utf8(Seq::<char>::empty()) =~= seq![]);
        cut_pieces_text(text, start, start, style, marks);
        assert(encode_utf8(text).subrange(0, encode_utf8(text).len() as int) =~= encode_utf8(text));
        vstd::utf8::encode_utf8_decode_utf8(text);
    }
}

/// The text a line shows: a spinner shows its frame, any other span its own
/// text.
pub open spec fn shown_text(spans: Seq<SpanView>, faces: Seq<Face>) -> Seq<char>
    decreases spans.len(),
{
    if spans.len() == 0 {
        seq![]
    } else {
        shown_text(spans.drop_last(), faces.drop_last()) + match faces.last() {
            Face::Spinner { span, .. } => span@.text,
            Face::Styled(_) => spans.last().text,
        }
    }
}

pub(crate) proof fn cuts_fit_in_span(all: Seq<SpanView>, k: int, marks: Seq<Mark>)
    requires
        0 <= k < all.len(),
        marks_fit(spans_text(all), marks),
    ensures
        cuts_fit(all[k].text, line_bytes(all.take(k)), marks),
{
    let start = line_bytes(all.take(k));
    let before = spans_text(all.take(k));
    let text = all[k].text;
    span_in_line(all, k);
    let after = choose|after: Seq<char>| spans_text(all) == before + text + after;
    assert(spans_text(all) =~= before + (text + after));
    bytes_of_concat(before, text);
    assert forall|m: int| 0 <= m < marks.len() implies {
        let bytes = (#[trigger] marks[m]).bytes;
        let end = start + encode_utf8(text).len();
        &&& start < bytes.start < end ==> is_char_boundary(encode_utf8(text), bytes.start - start)
        &&& start < bytes.end < end ==> is_char_boundary(encode_utf8(text), bytes.end - start)
    } by {
        let bytes = marks[m].bytes;
        let end = start + encode_utf8(text).len();
        assert(on_boundaries(spans_text(all), bytes));
        if start < bytes.start < end {
            boundary_of_back(before, text + after, bytes.start as int);
            boundary_of_front(text, after, bytes.start - start);
        }
        if start < bytes.end < end {
            boundary_of_back(before, text + after, bytes.end as int);
            boundary_of_front(text, after, bytes.end - start);
        }
    }
}

proof fn composed_prefix_text(
    all: Seq<SpanView>,
    faces: Seq<Face>,
    marks: Seq<Mark>,
    k: int,
)
    requires
        0 <= k <= all.len(),
        faces.len() == all.len(),
        marks_fit(spans_text(all), marks),
    ensures
        composed(all.take(k), faces.take(k), marks) matches Some(made) ==> outs_text(made.spans)
            == shown_text(all.take(k), faces.take(k)),
    decreases k,
{
    if k > 0 {
        let spans = all.take(k);
        let fs = faces.take(k);
        assert(spans.drop_last() =~= all.take(k - 1));
        assert(fs.drop_last() =~= faces.take(k - 1));
        composed_prefix_text(all, faces, marks, k - 1);
        if let Some(done) = composed(spans.drop_last(), fs.drop_last(), marks) {
            let start = line_bytes(spans.drop_last());
            match fs.last() {
                Face::Spinner { style, span } => {
                    let grown = done.spans.push(span@);
                    assert(grown.drop_last() =~= done.spans);
                },
                Face::Styled(style) => {
                    cuts_fit_in_span(all, k - 1, marks);
                    cutting_keeps_the_text(spans.last().text, start, style, marks);
                    outs_text_concat(
                        done.spans,
                        pieces(spans.last().text, start, style, marks),
                    );
                },
            }
        }
    }
}

/// A composed line shows the text of its source, a spinner its frame.
pub proof fn a_line_shows_its_text(spans: Seq<SpanView>, faces: Seq<Face>, marks: Seq<Mark>)
    requires
        faces.len() == spans.len(),
        marks_fit(spans_text(spans), marks),
    ensures
        composed(spans, faces, marks) matches Some(made) ==> outs_text(made.spans) == shown_text(
            spans,
            faces,
        ),
{
    composed_prefix_text(spans, faces, marks, spans.len() as int);
    assert(spans.take(spans.len() as int) =~= spans);
    assert(faces.take(spans.len() as int) =~= faces);
}

/// The source spans, each in the style the theme gives it.
pub open spec fn passed_through(spans: Seq<SpanView>, faces: Seq<Face>) -> Seq<SpanOut> {
    Seq::new(
        spans.len(),
        |k: int|
            match faces[k] {
                Face::Spinner { span, .. } => span@,
                Face::Styled(style) => SpanOut { text: spans[k].text, style },
            },
    )
}

/// Without decorations a line passes through span by span.
pub proof fn a_plain_line_passes_through(spans: Seq<SpanView>, faces: Seq<Face>)
    requires
        faces.len() == spans.len(),
    ensures
        composed(spans, faces, seq![]) matches Some(made) && made.spans == passed_through(
            spans,
            faces,
        ),
    decreases spans.len(),
{
    let none = Seq::<Mark>::empty();
    if spans.len() == 0 {
        assert(passed_through(spans, faces) =~= seq![]);
    } else {
        a_plain_line_passes_through(spans.drop_last(), faces.drop_last());
        let text = spans.last().text;
        let start = line_bytes(spans.drop_last());
        let end = start + encode_utf8(text).len();
        let done = passed_through(spans.drop_last(), faces.drop_last());
        match faces.last() {
            Face::Spinner { style, span } => {
                assert(done.push(span@) =~= passed_through(spans, faces));
            },
            Face::Styled(style) => {
                let whole = SpanOut { text, style };
                assert(pieces(text, start, style, none) =~= seq![whole]) by {
                    if encode_utf8(text).len() == 0 {
                        bytes_cover_chars(text);
                        assert(text =~= seq![]);
                    } else {
                        assert(next_cut(none, start, end) == end);
                        assert(encode_utf8(text).subrange(0, encode_utf8(text).len() as int)
                            =~= encode_utf8(text));
                        vstd::utf8::encode_utf8_decode_utf8(text);
                        assert(cut_pieces(text, start, end, style, none) =~= seq![]);
                    }
                }
                assert(done + seq![whole] =~= passed_through(spans, faces));
            },
        }
    }
}

/// Every spinner of the lines points at one of their spans.
pub open spec fn spinners_point_at_spans(
    lines: Seq<LineOut>,
    spinners: Seq<SpinnerLine>,
) -> bool {
    forall|k: int|
        0 <= k < spinners.len() ==> {
            let spinner = #[trigger] spinners[k];
            spinner.line < lines.len() && spinner.span < lines[spinner.line as int].spans.len()
        }
}

proof fn composed_spinners_point(spans: Seq<SpanView>, faces: Seq<Face>, marks: Seq<Mark>)
    requires
        faces.len() == spans.len(),
    ensures
        composed(spans, faces, marks) matches Some(made) ==> (made.spans.len() <= usize::MAX
            ==> forall|k: int|
            0 <= k < made.spinners.len() ==> (#[trigger] made.spinners[k]).line == 0
                && made.spinners[k].span < made.spans.len()),
    decreases spans.len(),
{
    if spans.len() > 0 {
        composed_spinners_point(spans.drop_last(), faces.drop_last(), marks);
    }
}

/// The lines of a block can be counted, and so can the spans of each.
pub open spec fn countable(lines: Seq<LineOut>) -> bool {
    &&& lines.len() <= usize::MAX
    &&& forall|i: int| 0 <= i < lines.len() ==> (#[trigger] lines[i]).spans.len() <= usize::MAX
}

proof fn drawn_spinners_point(
    before: Seq<LineOut>,
    made: Seq<Composed>,
    after: Seq<LineOut>,
)
    requires
        countable(after),
        after == before + composed_lines(made),
        forall|i: int, k: int|
            0 <= i < made.len() && 0 <= k < made[i].spinners.len() ==> (
            #[trigger] made[i].spinners[k]).line == 0 && made[i].spinners[k].span
                < made[i].spans.len(),
    ensures
        spinners_point_at_spans(after, composed_spinners(made, before.len())),
    decreases made.len(),
{
    if made.len() > 0 {
        let rest = made.drop_last();
        let shorter = before + composed_lines(rest);
        assert(composed_lines(made) =~= composed_lines(rest).push(bare(made.last().spans)));
        assert(after =~= shorter.push(bare(made.last().spans)));
        assert forall|i: int| 0 <= i < shorter.len() implies (#[trigger] shorter[i]).spans.len()
            <= usize::MAX by {
            assert(after[i] == shorter[i]);
        }
        assert forall|i: int, k: int|
            0 <= i < rest.len() && 0 <= k < rest[i].spinners.len() implies (
        #[trigger] rest[i].spinners[k]).line == 0 && rest[i].spinners[k].span
            < rest[i].spans.len() by {
            assert(made[i].spinners[k].line == 0);
        }
        drawn_spinners_point(before, rest, shorter);
        let n = (before.len() + rest.len()) as nat;
        let old_ones = composed_spinners(rest, before.len());
        let new_ones = moved_down(made.last().spinners, n);
        let all = composed_spinners(made, before.len());
        assert(all =~= old_ones + new_ones);
        assert forall|k: int| 0 <= k < all.len() implies {
            let spinner = #[trigger] all[k];
            spinner.line < after.len() && spinner.span < after[spinner.line as int].spans.len()
        } by {
            if k < old_ones.len() {
                assert(all[k] == old_ones[k]);
                assert(after[old_ones[k].line as int] == shorter[old_ones[k].line as int]);
            } else {
                let j = k - old_ones.len();
                assert(made[made.len() - 1].spinners[j].line == 0);
                assert(all[k] == new_ones[j]);
                assert(after[n as int] == bare(made.last().spans));
            }
        }
    }
}

/// Every spinner a renderer's lines carry points at one of the block's spans.
pub proof fn spinners_point_at_their_spans(
    objects: Seq<RenderObject>,
    faces: Seq<Faces>,
    tool: Option<ToolLines>,
    instructions: Option<ToolLines>,
)
    requires
        all_faces_fit(objects, faces),
        laid_out(objects, faces, tool, instructions) matches Some(laid) && countable(laid.lines),
    ensures
        laid_out(objects, faces, tool, instructions) matches Some(laid) && spinners_point_at_spans(
            laid.lines,
            laid.spinner_lines,
        ),
    decreases objects.len(),
{
    if objects.len() > 0 {
        let rest = objects.drop_last();
        let rest_faces = faces.drop_last();
        let laid = laid_out(objects, faces, tool, instructions)->Some_0;
        let before = laid_out(rest, rest_faces, tool, instructions)->Some_0;
        assert forall|k: int|
            0 <= k < rest.len() && (#[trigger] rest[k]) is Lines implies faces_fit(
            rest[k]->lines@,
            rest[k]->decorations@,
            rest_faces[k],
        ) by {
            assert(rest[k] == objects[k]);
        }
        lines_only_grow(before, objects.last(), faces.last());
        assert forall|i: int| 0 <= i < before.lines.len() implies (
        #[trigger] before.lines[i]).spans.len() <= usize::MAX by {
            assert(laid.lines[i] == before.lines[i]);
        }
        spinners_point_at_their_spans(rest, rest_faces, tool, instructions);
        assert forall|k: int| 0 <= k < before.spinner_lines.len() implies {
            let spinner = #[trigger] before.spinner_lines[k];
            spinner.line < laid.lines.len() && spinner.span < laid.lines[spinner.line as int].spans.len()
        } by {
            let spinner = before.spinner_lines[k];
            assert(laid.lines[spinner.line as int] == before.lines[spinner.line as int]);
        }
        if let RenderObject::Lines { lines, decorations } = objects.last() {
            let made = drawn(lines@, decorations@, faces.last());
            assert(objects[objects.len() - 1] is Lines);
            assert forall|i: int, k: int|
                0 <= i < made.len() && 0 <= k < made[i].spinners.len() implies (
            #[trigger] made[i].spinners[k]).line == 0 && made[i].spinners[k].span
                < made[i].spans.len() by {
                assert(line_composed(lines@, decorations@, faces.last(), i) is Some);
                assert(faces.last().spans@[i]@.len() == lines@[i].spans@.len());
                composed_spinners_point(
                    lines@[i]@,
                    faces.last().spans@[i]@,
                    marks_of(decorations@, faces.last().decorations@, i),
                );
                assert(laid.lines[before.lines.len() + i] == bare(made[i].spans));
            }
            drawn_spinners_point(before.lines, made, laid.lines);
            let new_ones = composed_spinners(made, before.lines.len());
            assert forall|k: int| 0 <= k < laid.spinner_lines.len() implies {
                let spinner = #[trigger] laid.spinner_lines[k];
                spinner.line < laid.lines.len() && spinner.span
                    < laid.lines[spinner.line as int].spans.len()
            } by {
                if k < before.spinner_lines.len() {
                    assert(laid.spinner_lines[k] == before.spinner_lines[k]);
                } else {
                    assert(laid.spinner_lines[k] == new_ones[k - before.spinner_lines.len()]);
                }
            }
        }
    }
}

/// An object is laid out below what is there and changes none of it.
pub proof fn lines_only_grow(laid: Laid, object: RenderObject, faces: Faces)
    ensures
        lay_next(laid, object, faces) matches Some(next) ==> {
            &&& laid.lines.len() <= next.lines.len()
            &&& forall|i: int| 0 <= i < laid.lines.len() ==> #[trigger] next.lines[i] == laid.lines[i]
            &&& laid.raw.len() <= next.raw.len()
            &&& forall|i: int| 0 <= i < laid.raw.len() ==> #[trigger] next.raw[i] == laid.raw[i]
        },
{
}

/// A block that places the same native body twice is refused.
pub proof fn a_second_marker_refuses_the_block(
    objects: Seq<RenderObject>,
    faces: Seq<Faces>,
    tool: Option<ToolLines>,
    instructions: Option<ToolLines>,
    i: int,
    j: int,
)
    requires
        faces.len() == objects.len(),
        0 <= i < j < objects.len(),
        (objects[i] is ToolBody && objects[j] is ToolBody) || (objects[i] is InstructionsBody
            && objects[j] is InstructionsBody),
    ensures
        laid_out(objects, faces, tool, instructions) is None,
{
    let done = objects.take(j);
    laid_out_is_as_high(done, faces.take(j), tool, instructions);
    assert(done[i] == objects[i]);
    assert(objects.take(j + 1).drop_last() =~= done);
    assert(faces.take(j + 1).drop_last() =~= faces.take(j));
    assert(objects.take(j + 1).last() == objects[j]);
    refused_stays_refused(objects, faces, tool, instructions, j + 1);
}

/// A block that places a native body the host does not have is refused.
pub proof fn a_marker_without_a_body_refuses_the_block(
    objects: Seq<RenderObject>,
    faces: Seq<Faces>,
    tool: Option<ToolLines>,
    instructions: Option<ToolLines>,
    i: int,
)
    requires
        faces.len() == objects.len(),
        0 <= i < objects.len(),
        (objects[i] is ToolBody && tool is None) || (objects[i] is InstructionsBody
            && instructions is None),
    ensures
        laid_out(objects, faces, tool, instructions) is None,
{
    let done = objects.take(i);
    laid_out_is_as_high(done, faces.take(i), tool, instructions);
    assert(objects.take(i + 1).drop_last() =~= done);
    assert(faces.take(i + 1).drop_last() =~= faces.take(i));
    assert(objects.take(i + 1).last() == objects[i]);
    refused_stays_refused(objects, faces, tool, instructions, i + 1);
}

/// A native body keeps its lines, and its metadata moves down by as many lines
/// as the renderer put above it.
pub proof fn a_tool_body_lands_where_its_marker_is(
    objects: Seq<RenderObject>,
    faces: Seq<Faces>,
    tool: Option<ToolLines>,
    instructions: Option<ToolLines>,
    k: int,
)
    requires
        faces.len() == objects.len(),
        first_tool(objects, k),
    ensures
        laid_out(objects, faces, tool, instructions) matches Some(laid) ==> {
            let at = height(objects.take(k), tool, instructions) as int;
            &&& tool matches Some(body)
            &&& laid.tool == Some(body_at(body, at as nat))
            &&& at + body.lines@.len() <= laid.lines.len()
            &&& laid.lines.subrange(at, at + body.lines@.len()) == line_outs(body.lines@)
        },
    decreases objects.len(),
{
    let rest = objects.drop_last();
    let rest_faces = faces.drop_last();
    if let Some(laid) = laid_out(objects, faces, tool, instructions) {
        let before = laid_out(rest, rest_faces, tool, instructions)->Some_0;
        laid_out_is_as_high(rest, rest_faces, tool, instructions);
        if k == objects.len() - 1 {
            assert(objects.take(k) =~= rest);
            assert forall|j: int| 0 <= j < rest.len() implies !((#[trigger] rest[j]) is ToolBody) by {
                assert(rest[j] == objects[j]);
            }
            let body = tool->Some_0;
            assert(laid.lines.subrange(
                before.lines.len() as int,
                before.lines.len() as int + body.lines@.len(),
            ) =~= line_outs(body.lines@));
        } else {
            assert(rest.take(k) =~= objects.take(k));
            assert(first_tool(rest, k)) by {
                assert forall|j: int| 0 <= j < k implies !((#[trigger] rest[j]) is ToolBody) by {
                    assert(rest[j] == objects[j]);
                }
            }
            a_tool_body_lands_where_its_marker_is(rest, rest_faces, tool, instructions, k);
            lines_only_grow(before, objects.last(), faces.last());
            let at = height(objects.take(k), tool, instructions) as int;
            let body = tool->Some_0;
            assert(laid.lines.subrange(at, at + body.lines@.len()) =~= before.lines.subrange(
                at,
                at + body.lines@.len(),
            ));
            if objects.last() is ToolBody {
                assert(rest[k] is ToolBody);
            }
        }
    }
}

/// An instructions body keeps its lines, and its metadata moves down by as
/// many lines as the renderer put above it.
pub proof fn an_instructions_body_lands_where_its_marker_is(
    objects: Seq<RenderObject>,
    faces: Seq<Faces>,
    tool: Option<ToolLines>,
    instructions: Option<ToolLines>,
    k: int,
)
    requires
        faces.len() == objects.len(),
        first_instructions(objects, k),
    ensures
        laid_out(objects, faces, tool, instructions) matches Some(laid) ==> {
            let at = height(objects.take(k), tool, instructions) as int;
            &&& instructions matches Some(body)
            &&& laid.instructions == Some(body_at(body, at as nat))
            &&& at + body.lines@.len() <= laid.lines.len()
            &&& laid.lines.subrange(at, at + body.lines@.len()) == line_outs(body.lines@)
        },
    decreases objects.len(),
{
    let rest = objects.drop_last();
    let rest_faces = faces.drop_last();
    if let Some(laid) = laid_out(objects, faces, tool, instructions) {
        let before = laid_out(rest, rest_faces, tool, instructions)->Some_0;
        laid_out_is_as_high(rest, rest_faces, tool, instructions);
        if k == objects.len() - 1 {
            assert(objects.take(k) =~= rest);
            assert forall|j: int| 0 <= j < rest.len() implies !((
            #[trigger] rest[j]) is InstructionsBody) by {
                assert(rest[j] == objects[j]);
            }
            let body = instructions->Some_0;
            assert(laid.lines.subrange(
                before.lines.len() as int,
                before.lines.len() as int + body.lines@.len(),
            ) =~= line_outs(body.lines@));
        } else {
            assert(rest.take(k) =~= objects.take(k));
            assert(first_instructions(rest, k)) by {
                assert forall|j: int| 0 <= j < k implies !((
                #[trigger] rest[j]) is InstructionsBody) by {
                    assert(rest[j] == objects[j]);
                }
            }
            an_instructions_body_lands_where_its_marker_is(
                rest,
                rest_faces,
                tool,
                instructions,
                k,
            );
            lines_only_grow(before, objects.last(), faces.last());
            let at = height(objects.take(k), tool, instructions) as int;
            let body = instructions->Some_0;
            assert(laid.lines.subrange(at, at + body.lines@.len()) =~= before.lines.subrange(
                at,
                at + body.lines@.len(),
            ));
            if objects.last() is InstructionsBody {
                assert(rest[k] is InstructionsBody);
            }
        }
    }
}

/// A body without a marker is not placed.
pub proof fn a_body_without_a_marker_is_not_placed(
    objects: Seq<RenderObject>,
    faces: Seq<Faces>,
    tool: Option<ToolLines>,
    instructions: Option<ToolLines>,
)
    ensures
        laid_out(objects, faces, tool, instructions) matches Some(laid) ==> {
            &&& (forall|j: int| 0 <= j < objects.len() ==> !((#[trigger] objects[j]) is ToolBody))
                ==> laid.tool is None
            &&& (forall|j: int|
                0 <= j < objects.len() ==> !((#[trigger] objects[j]) is InstructionsBody))
                ==> laid.instructions is None
        },
    decreases objects.len(),
{
    if objects.len() > 0 {
        let rest = objects.drop_last();
        a_body_without_a_marker_is_not_placed(rest, faces.drop_last(), tool, instructions);
        assert(forall|j: int| 0 <= j < rest.len() ==> #[trigger] rest[j] == objects[j]);
        assert(objects[objects.len() - 1] == objects.last());
    }
}

/// A raw rectangle is bounded, its sequence is accepted, and placeholder cells
/// hold its place.
pub open spec fn raw_in_place(lines: Seq<LineOut>, raw: RawOut) -> bool {
    &&& raw.width <= MAX_RAW_WIDTH
    &&& raw.height <= MAX_RAW_HEIGHT
    &&& verdict(encode_utf8(raw.seq)) is Ok
    &&& raw.row + raw.height <= lines.len()
    &&& forall|i: int|
        raw.row <= i < raw.row + raw.height ==> #[trigger] lines[i] == placeholder(
            raw.width as nat,
        )
}

/// Every raw rectangle of a block is bounded, holds an accepted sequence, and
/// has placeholder cells in its place.
pub proof fn raw_rectangles_are_in_place(
    objects: Seq<RenderObject>,
    faces: Seq<Faces>,
    tool: Option<ToolLines>,
    instructions: Option<ToolLines>,
)
    ensures
        laid_out(objects, faces, tool, instructions) matches Some(laid) ==> forall|r: int|
            0 <= r < laid.raw.len() ==> raw_in_place(laid.lines, #[trigger] laid.raw[r]),
    decreases objects.len(),
{
    if objects.len() > 0 {
        if let Some(laid) = laid_out(objects, faces, tool, instructions) {
            let rest = objects.drop_last();
            let before = laid_out(rest, faces.drop_last(), tool, instructions)->Some_0;
            raw_rectangles_are_in_place(rest, faces.drop_last(), tool, instructions);
            lines_only_grow(before, objects.last(), faces.last());
            assert forall|r: int| 0 <= r < laid.raw.len() implies raw_in_place(
                laid.lines,
                #[trigger] laid.raw[r],
            ) by {
                if r < before.raw.len() {
                    let raw = before.raw[r];
                    assert(raw_in_place(before.lines, raw));
                    assert forall|i: int| raw.row <= i < raw.row + raw.height implies
                        #[trigger] laid.lines[i] == placeholder(raw.width as nat) by {
                        assert(before.lines[i] == placeholder(raw.width as nat));
                    }
                }
            }
        }
    }
}

/// A body placed at the top of a block keeps its metadata as it is.
pub proof fn a_body_at_the_top_keeps_its_metadata(body: ToolLines)
    ensures
        ({
            let placed = body_at(body, 0);
            &&& placed.offset == 0
            &&& placed.highlight == body.highlight
            &&& placed.spinner_lines == body.spinner_lines@
            &&& placed.snapshot_base == body.snapshot_base
            &&& placed.truncation == body.truncation
        }),
{
    assert(moved_down(body.spinner_lines@, 0) =~= body.spinner_lines@);
}

} // verus!
