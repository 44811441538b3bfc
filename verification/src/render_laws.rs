//! What a rendered block holds, object by object, and when it is refused.

use crate::compose::{composed, touched, Face, LineOut, Mark};
use crate::draw_laws::{
    a_drawn_line_shows_its_source, bytes_are_counted, bytes_before, decorated, line_shows, marked,
    marks_are_decorations, Origin,
};
use crate::layout::{
    all_faces_fit, finished, first_instructions, first_tool, height, laid_out, laid_out_is_as_high,
    RenderedOut,
};
use crate::layout_laws::{
    a_second_marker_refuses_the_block, a_tool_body_lands_where_its_marker_is,
    an_instructions_body_lands_where_its_marker_is, lines_only_grow,
};
use crate::place::{
    body_at, can_move_down, decoration_fits, drawable, drawn, faces_fit, line_composed, marks_of,
    BodyOut, Decoration, Faces, RenderObject, ToolLines,
};
use crate::raw::verdict;
use crate::snapshot::{spans_text, SnapshotLine, SpanView};
use crate::style::plain_style;
use ratatui::style::Style;
use vstd::prelude::*;
use vstd::utf8::{encode_utf8, is_char_boundary};

verus! {

/// A number, or the bound if it is more.
pub open spec fn up_to(n: nat, bound: nat) -> nat {
    if n > bound {
        bound
    } else {
        n
    }
}

/// How many lines an object takes: its own, those of a rectangle of at most
/// 128 rows, or those of the native body it places.
pub open spec fn rows_of(
    object: RenderObject,
    tool: Option<ToolLines>,
    instructions: Option<ToolLines>,
) -> nat {
    match object {
        RenderObject::Lines { lines, decorations: _ } => lines@.len(),
        RenderObject::Raw { seq: _, width: _, height } => up_to(height as nat, 128),
        RenderObject::ToolBody => if tool is Some {
            tool->Some_0.lines@.len()
        } else {
            0
        },
        RenderObject::InstructionsBody => if instructions is Some {
            instructions->Some_0.lines@.len()
        } else {
            0
        },
    }
}

/// The line that object `k` starts on: below all objects before it.
pub open spec fn top_of(
    objects: Seq<RenderObject>,
    tool: Option<ToolLines>,
    instructions: Option<ToolLines>,
    k: int,
) -> nat
    decreases k,
{
    if k <= 0 {
        0
    } else {
        top_of(objects, tool, instructions, k - 1) + rows_of(objects[k - 1], tool, instructions)
    }
}

/// How many of the first `k` objects are raw sequences.
pub open spec fn raws_before(objects: Seq<RenderObject>, k: int) -> nat {
    objects.take(k).filter(|object: RenderObject| object is Raw).len()
}

/// A line of nothing but its spans.
pub open spec fn unadorned(line: LineOut) -> bool {
    line.style == plain_style() && line.alignment is None
}

/// A row of a raw rectangle: blanks in the plain style, as many as the
/// rectangle is wide.
pub open spec fn is_placeholder(line: LineOut, width: nat) -> bool {
    &&& unadorned(line)
    &&& line.spans.len() == 1
    &&& line.spans[0].style == plain_style()
    &&& line.spans[0].text.len() == width
    &&& forall|k: int| 0 <= k < width ==> #[trigger] line.spans[0].text[k] == ' '
}

/// A native body stands in the block from line `top` on: its metadata, with
/// every line index moved down as far, and nothing else changed.
pub open spec fn body_stands(placed: BodyOut, body: ToolLines, top: nat) -> bool {
    &&& placed.offset == top
    &&& placed.content_indent == body.content_indent@
    &&& placed.truncation == body.truncation
    &&& placed.snapshot_base is Some <==> body.snapshot_base is Some
    &&& body.snapshot_base matches Some(base) ==> placed.snapshot_base->Some_0 == base + top
    &&& placed.highlight is Some <==> body.highlight is Some
    &&& body.highlight matches Some(request) ==> {
        let moved = placed.highlight->Some_0;
        &&& moved.range.0 == request.range.0 + top
        &&& moved.range.1 == request.range.1 + top
        &&& moved.input == request.input
        &&& moved.output == request.output
        &&& moved.limits == request.limits
    }
    &&& placed.spinner_lines.len() == body.spinner_lines@.len()
    &&& forall|s: int|
        0 <= s < body.spinner_lines@.len() ==> {
            let moved = #[trigger] placed.spinner_lines[s];
            &&& moved.line == body.spinner_lines@[s].line + top
            &&& moved.span == body.spinner_lines@[s].span
            &&& moved.style == body.spinner_lines@[s].style
        }
}

/// An object stands in the block from line `top` on.
pub open spec fn object_stands(
    object: RenderObject,
    faces: Faces,
    tool: Option<ToolLines>,
    instructions: Option<ToolLines>,
    made: RenderedOut,
    top: int,
    raw: int,
) -> bool {
    match object {
        RenderObject::Lines { lines, decorations } => forall|i: int|
            0 <= i < lines@.len() ==> unadorned(#[trigger] made.lines[top + i]) && exists|
                origins: Seq<Origin>,
            | #[trigger]
                line_shows(
                    lines@[i]@,
                    faces.spans@[i]@,
                    decorations@,
                    faces.decorations@,
                    i,
                    made.lines[top + i].spans,
                    origins,
                ),
        RenderObject::Raw { seq, width, height } => {
            &&& forall|i: int|
                0 <= i < up_to(height as nat, 128) ==> is_placeholder(
                    #[trigger] made.lines[top + i],
                    up_to(width as nat, 256),
                )
            &&& 0 <= raw < made.raw.len()
            &&& made.raw[raw].row == top
            &&& made.raw[raw].seq == seq@
            &&& made.raw[raw].width == up_to(width as nat, 256)
            &&& made.raw[raw].height == up_to(height as nat, 128)
        },
        RenderObject::ToolBody => {
            &&& tool matches Some(body)
            &&& made.tool matches Some(placed) && (can_move_down(body, top as nat) ==> body_stands(
                placed,
                body,
                top as nat,
            ))
            &&& forall|i: int|
                0 <= i < body.lines@.len() ==> #[trigger] made.lines[top + i] == body.lines@[i]@
        },
        RenderObject::InstructionsBody => {
            &&& instructions matches Some(body)
            &&& made.instructions matches Some(placed) && (can_move_down(body, top as nat)
                ==> body_stands(placed, body, top as nat))
            &&& forall|i: int|
                0 <= i < body.lines@.len() ==> #[trigger] made.lines[top + i] == body.lines@[i]@
        },
    }
}

pub(crate) proof fn height_is_the_rows(
    objects: Seq<RenderObject>,
    tool: Option<ToolLines>,
    instructions: Option<ToolLines>,
    k: int,
)
    requires
        0 <= k <= objects.len(),
    ensures
        height(objects.take(k), tool, instructions) == top_of(objects, tool, instructions, k),
    decreases k,
{
    if k > 0 {
        height_is_the_rows(objects, tool, instructions, k - 1);
        assert(objects.take(k).drop_last() =~= objects.take(k - 1));
        assert(objects.take(k).last() == objects[k - 1]);
    }
}

pub(crate) proof fn top_is_local(
    objects: Seq<RenderObject>,
    tool: Option<ToolLines>,
    instructions: Option<ToolLines>,
    k: int,
)
    requires
        0 <= k < objects.len(),
    ensures
        top_of(objects.drop_last(), tool, instructions, k) == top_of(
            objects,
            tool,
            instructions,
            k,
        ),
    decreases k,
{
    if k > 0 {
        top_is_local(objects, tool, instructions, k - 1);
    }
}

proof fn raws_are_counted(
    objects: Seq<RenderObject>,
    faces: Seq<Faces>,
    tool: Option<ToolLines>,
    instructions: Option<ToolLines>,
)
    requires
        laid_out(objects, faces, tool, instructions) is Some,
    ensures
        laid_out(objects, faces, tool, instructions)->Some_0.raw.len() == raws_before(
            objects,
            objects.len() as int,
        ),
    decreases objects.len(),
{
    reveal(Seq::filter);
    assert(objects.take(objects.len() as int) =~= objects);
    if objects.len() > 0 {
        let rest = objects.drop_last();
        raws_are_counted(rest, faces.drop_last(), tool, instructions);
        assert(rest.take(rest.len() as int) =~= rest);
    }
}

proof fn body_is_moved(body: ToolLines, top: nat)
    requires
        can_move_down(body, top),
    ensures
        body_stands(body_at(body, top), body, top),
{
    let placed = body_at(body, top);
    assert forall|s: int| 0 <= s < body.spinner_lines@.len() implies {
        let moved = #[trigger] placed.spinner_lines[s];
        &&& moved.line == body.spinner_lines@[s].line + top
        &&& moved.span == body.spinner_lines@[s].span
        &&& moved.style == body.spinner_lines@[s].style
    } by {
        assert(body.spinner_lines@[s].line + top <= usize::MAX);
    }
}

/// Lines and raw sequences stand where they were laid out.
proof fn own_objects_stand(
    objects: Seq<RenderObject>,
    faces: Seq<Faces>,
    tool: Option<ToolLines>,
    instructions: Option<ToolLines>,
    k: int,
)
    requires
        all_faces_fit(objects, faces),
        laid_out(objects, faces, tool, instructions) is Some,
        0 <= k < objects.len(),
        objects[k] is Lines || objects[k] is Raw,
    ensures
        object_stands(
            objects[k],
            faces[k],
            tool,
            instructions,
            finished(laid_out(objects, faces, tool, instructions)->Some_0),
            top_of(objects, tool, instructions, k) as int,
            raws_before(objects, k) as int,
        ),
        top_of(objects, tool, instructions, k) + rows_of(objects[k], tool, instructions)
            <= laid_out(objects, faces, tool, instructions)->Some_0.lines.len(),
    decreases objects.len(),
{
    let rest = objects.drop_last();
    let fewer = faces.drop_last();
    let laid = laid_out(objects, faces, tool, instructions)->Some_0;
    let before = laid_out(rest, fewer, tool, instructions)->Some_0;
    let top = top_of(objects, tool, instructions, k) as int;
    let made = finished(laid);
    laid_out_is_as_high(rest, fewer, tool, instructions);
    if k == objects.len() - 1 {
        height_is_the_rows(objects, tool, instructions, k);
        assert(objects.take(k) =~= rest);
        raws_are_counted(rest, fewer, tool, instructions);
        assert(rest.take(rest.len() as int) =~= rest);
        assert(before.lines.len() == top);
        match objects[k] {
            RenderObject::Lines { lines, decorations } => {
                assert(objects[k] is Lines);
                let drawn_lines = drawn(lines@, decorations@, faces[k]);
                assert forall|i: int| 0 <= i < lines@.len() implies unadorned(
                    #[trigger] made.lines[top + i],
                ) && exists|origins: Seq<Origin>| #[trigger]
                    line_shows(
                        lines@[i]@,
                        faces[k].spans@[i]@,
                        decorations@,
                        faces[k].decorations@,
                        i,
                        made.lines[top + i].spans,
                        origins,
                    ) by {
                    a_drawn_line_shows_its_source(lines@, decorations@, faces[k], i);
                    assert(made.lines[top + i].spans == drawn_lines[i].spans);
                }
            },
            _ => {},
        }
    } else {
        assert(rest[k] == objects[k]);
        assert forall|j: int|
            0 <= j < rest.len() && (#[trigger] rest[j]) is Lines implies faces_fit(
            rest[j]->lines@,
            rest[j]->decorations@,
            fewer[j],
        ) by {
            assert(rest[j] == objects[j]);
        }
        own_objects_stand(rest, fewer, tool, instructions, k);
        top_is_local(objects, tool, instructions, k);
        assert(rest.take(k) =~= objects.take(k));
        lines_only_grow(before, objects.last(), faces.last());
        match objects[k] {
            RenderObject::Lines { lines, decorations } => {
                assert forall|i: int| 0 <= i < lines@.len() implies unadorned(
                    #[trigger] made.lines[top + i],
                ) && exists|origins: Seq<Origin>| #[trigger]
                    line_shows(
                        lines@[i]@,
                        faces[k].spans@[i]@,
                        decorations@,
                        faces[k].decorations@,
                        i,
                        made.lines[top + i].spans,
                        origins,
                    ) by {
                    assert(finished(before).lines[top + i] == made.lines[top + i]);
                }
            },
            RenderObject::Raw { seq, width, height } => {
                assert forall|i: int| 0 <= i < up_to(height as nat, 128) implies is_placeholder(
                    #[trigger] made.lines[top + i],
                    up_to(width as nat, 256),
                ) by {
                    assert(finished(before).lines[top + i] == made.lines[top + i]);
                }
            },
            _ => {},
        }
    }
}

/// A rendered block is its objects, one below the other: every line of every
/// object shows its source, a raw sequence has its rectangle of blanks, held to
/// 256 cells by 128, and a native body stands where its marker is, with its
/// metadata moved there. There is nothing else in it.
pub proof fn a_block_is_its_objects(
    objects: Seq<RenderObject>,
    faces: Seq<Faces>,
    tool: Option<ToolLines>,
    instructions: Option<ToolLines>,
    k: int,
)
    requires
        all_faces_fit(objects, faces),
        laid_out(objects, faces, tool, instructions) is Some,
    ensures
        ({
            let made = finished(laid_out(objects, faces, tool, instructions)->Some_0);
            &&& made.lines.len() == top_of(objects, tool, instructions, objects.len() as int)
            &&& made.raw.len() == raws_before(objects, objects.len() as int)
            &&& made.tool is Some <==> exists|j: int|
                0 <= j < objects.len() && (#[trigger] objects[j]) is ToolBody
            &&& made.instructions is Some <==> exists|j: int|
                0 <= j < objects.len() && (#[trigger] objects[j]) is InstructionsBody
            &&& 0 <= k < objects.len() ==> object_stands(
                objects[k],
                faces[k],
                tool,
                instructions,
                made,
                top_of(objects, tool, instructions, k) as int,
                raws_before(objects, k) as int,
            )
        }),
{
    let n = objects.len() as int;
    let laid = laid_out(objects, faces, tool, instructions)->Some_0;
    laid_out_is_as_high(objects, faces, tool, instructions);
    height_is_the_rows(objects, tool, instructions, n);
    assert(objects.take(n) =~= objects);
    raws_are_counted(objects, faces, tool, instructions);
    bodies_are_placed(objects, faces, tool, instructions);
    if 0 <= k < n {
        match objects[k] {
            RenderObject::Lines { .. } => own_objects_stand(objects, faces, tool, instructions, k),
            RenderObject::Raw { .. } => own_objects_stand(objects, faces, tool, instructions, k),
            RenderObject::ToolBody => {
                assert forall|j: int| 0 <= j < k implies !((#[trigger] objects[j]) is ToolBody) by {
                    if objects[j] is ToolBody {
                        a_second_marker_refuses_the_block(objects, faces, tool, instructions, j, k);
                    }
                }
                assert(first_tool(objects, k));
                a_tool_body_lands_where_its_marker_is(objects, faces, tool, instructions, k);
                height_is_the_rows(objects, tool, instructions, k);
                let top = top_of(objects, tool, instructions, k) as int;
                let body = tool->Some_0;
                if can_move_down(body, top as nat) {
                    body_is_moved(body, top as nat);
                }
                assert forall|i: int| 0 <= i < body.lines@.len() implies #[trigger] laid.lines[top
                    + i] == body.lines@[i]@ by {
                    assert(laid.lines.subrange(top, top + body.lines@.len())[i] == laid.lines[top
                        + i]);
                }
            },
            RenderObject::InstructionsBody => {
                assert forall|j: int| 0 <= j < k implies !((
                #[trigger] objects[j]) is InstructionsBody) by {
                    if objects[j] is InstructionsBody {
                        a_second_marker_refuses_the_block(objects, faces, tool, instructions, j, k);
                    }
                }
                assert(first_instructions(objects, k));
                an_instructions_body_lands_where_its_marker_is(
                    objects,
                    faces,
                    tool,
                    instructions,
                    k,
                );
                height_is_the_rows(objects, tool, instructions, k);
                let top = top_of(objects, tool, instructions, k) as int;
                let body = instructions->Some_0;
                if can_move_down(body, top as nat) {
                    body_is_moved(body, top as nat);
                }
                assert forall|i: int| 0 <= i < body.lines@.len() implies #[trigger] laid.lines[top
                    + i] == body.lines@[i]@ by {
                    assert(laid.lines.subrange(top, top + body.lines@.len())[i] == laid.lines[top
                        + i]);
                }
            },
        }
    }
}

proof fn bodies_are_placed(
    objects: Seq<RenderObject>,
    faces: Seq<Faces>,
    tool: Option<ToolLines>,
    instructions: Option<ToolLines>,
)
    requires
        laid_out(objects, faces, tool, instructions) is Some,
    ensures
        ({
            let laid = laid_out(objects, faces, tool, instructions)->Some_0;
            &&& laid.tool is Some <==> exists|j: int|
                0 <= j < objects.len() && (#[trigger] objects[j]) is ToolBody
            &&& laid.instructions is Some <==> exists|j: int|
                0 <= j < objects.len() && (#[trigger] objects[j]) is InstructionsBody
        }),
    decreases objects.len(),
{
    if objects.len() > 0 {
        let rest = objects.drop_last();
        bodies_are_placed(rest, faces.drop_last(), tool, instructions);
        let last = objects.len() - 1;
        assert(objects[last] == objects.last());
        assert forall|j: int| 0 <= j < rest.len() implies #[trigger] rest[j] == objects[j] by {}
        if exists|j: int| 0 <= j < rest.len() && (#[trigger] rest[j]) is ToolBody {
            let j = choose|j: int| 0 <= j < rest.len() && (#[trigger] rest[j]) is ToolBody;
            assert(objects[j] is ToolBody);
        }
        if exists|j: int| 0 <= j < rest.len() && (#[trigger] rest[j]) is InstructionsBody {
            let j = choose|j: int| 0 <= j < rest.len() && (#[trigger] rest[j]) is InstructionsBody;
            assert(objects[j] is InstructionsBody);
        }
        if exists|j: int| 0 <= j < objects.len() && (#[trigger] objects[j]) is ToolBody {
            let j = choose|j: int| 0 <= j < objects.len() && (#[trigger] objects[j]) is ToolBody;
            if j < last {
                assert(rest[j] is ToolBody);
            }
        }
        if exists|j: int| 0 <= j < objects.len() && (#[trigger] objects[j]) is InstructionsBody {
            let j = choose|j: int|
                0 <= j < objects.len() && (#[trigger] objects[j]) is InstructionsBody;
            if j < last {
                assert(rest[j] is InstructionsBody);
            }
        }
    }
}

/// The text of a line: that of its spans, one behind the other.
pub open spec fn text_of(spans: Seq<SpanView>) -> Seq<char> {
    Seq::new(spans.len(), |k: int| spans[k].text).flatten()
}

/// A decoration cannot be laid over the lines: there is no such line, or its
/// bytes go beyond the line's text or begin or end inside a character.
pub open spec fn misses(lines: Seq<SnapshotLine>, decoration: Decoration) -> bool {
    ||| decoration.line >= lines.len()
    ||| {
        let bytes = encode_utf8(text_of(lines[decoration.line as int]@));
        ||| decoration.bytes.end > bytes.len()
        ||| !is_char_boundary(bytes, decoration.bytes.start as int)
        ||| !is_char_boundary(bytes, decoration.bytes.end as int)
    }
}

/// A decoration reaches into the bytes of span `s` of line `i`.
pub open spec fn reaches(
    lines: Seq<SnapshotLine>,
    decorations: Seq<Decoration>,
    i: int,
    s: int,
    d: int,
) -> bool {
    &&& 0 <= d < decorations.len()
    &&& decorations[d].line == i
    &&& decorations[d].bytes.start < bytes_before(lines[i]@, s + 1)
    &&& bytes_before(lines[i]@, s) < decorations[d].bytes.end
}

/// Decorated lines are refused: a decoration misses them, or one reaches into
/// a spinner.
pub open spec fn cannot_draw(
    lines: Seq<SnapshotLine>,
    decorations: Seq<Decoration>,
    faces: Faces,
) -> bool {
    ||| exists|d: int| 0 <= d < decorations.len() && misses(lines, #[trigger] decorations[d])
    ||| exists|i: int, s: int, d: int|
        0 <= i < lines.len() && 0 <= s < lines[i].spans@.len() && faces.spans@[i]@[s] is Spinner
            && #[trigger] reaches(lines, decorations, i, s, d)
}

/// An object refuses its block: its lines cannot be drawn, its raw sequence is
/// not accepted, or the body it places is not there, or placed before.
pub open spec fn refuses(
    objects: Seq<RenderObject>,
    faces: Seq<Faces>,
    tool: Option<ToolLines>,
    instructions: Option<ToolLines>,
    k: int,
) -> bool {
    match objects[k] {
        RenderObject::Lines { lines, decorations } => cannot_draw(lines@, decorations@, faces[k]),
        RenderObject::Raw { seq, width: _, height: _ } => verdict(encode_utf8(seq@)) is Err,
        RenderObject::ToolBody => tool is None || exists|j: int|
            0 <= j < k && (#[trigger] objects[j]) is ToolBody,
        RenderObject::InstructionsBody => instructions is None || exists|j: int|
            0 <= j < k && (#[trigger] objects[j]) is InstructionsBody,
    }
}

proof fn the_text_is_flat(spans: Seq<SpanView>)
    ensures
        spans_text(spans) == text_of(spans),
    decreases spans.len(),
{
    let texts = Seq::new(spans.len(), |k: int| spans[k].text);
    if spans.len() > 0 {
        let rest = spans.drop_last();
        the_text_is_flat(rest);
        let before = Seq::new(rest.len(), |k: int| rest[k].text);
        assert(texts =~= before.push(spans.last().text));
        before.lemma_flatten_push(spans.last().text);
    } else {
        reveal(Seq::flatten);
        assert(texts =~= seq![]);
        assert(texts.flatten() =~= seq![]);
    }
}

/// A mark reaches into the bytes of a line exactly when a decoration of the
/// line does.
proof fn marks_reach(
    decorations: Seq<Decoration>,
    styles: Seq<Style>,
    line: int,
    start: nat,
    end: nat,
)
    requires
        styles.len() == decorations.len(),
    ensures
        touched(marks_of(decorations, styles, line), start, end) <==> exists|d: int|
            0 <= d < decorations.len() && (#[trigger] decorations[d]).line == line
                && decorations[d].bytes.start < end && start < decorations[d].bytes.end,
{
    let marks = marks_of(decorations, styles, line);
    if touched(marks, start, end) {
        let m = choose|m: int|
            0 <= m < marks.len() && (#[trigger] marks[m]).bytes.start < end && start
                < marks[m].bytes.end;
        let bytes = marks[m].bytes;
        marks_are_decorations(decorations, styles, line, bytes);
        assert(marked(marks, bytes));
        let d = choose|d: int|
            0 <= d < decorations.len() && (#[trigger] decorations[d]).line == line
                && decorations[d].bytes == bytes;
        assert(decorations[d].line == line);
    }
    if exists|d: int|
        0 <= d < decorations.len() && (#[trigger] decorations[d]).line == line
            && decorations[d].bytes.start < end && start < decorations[d].bytes.end {
        let d = choose|d: int|
            0 <= d < decorations.len() && (#[trigger] decorations[d]).line == line
                && decorations[d].bytes.start < end && start < decorations[d].bytes.end;
        let bytes = decorations[d].bytes;
        marks_are_decorations(decorations, styles, line, bytes);
        assert(decorated(decorations, line, bytes));
        let m = choose|m: int| 0 <= m < marks.len() && (#[trigger] marks[m]).bytes == bytes;
        assert(marks[m].bytes.start < end && start < marks[m].bytes.end);
    }
}

/// One of the first `n` spans is a spinner that a mark reaches into.
spec fn spinner_touched(spans: Seq<SpanView>, faces: Seq<Face>, marks: Seq<Mark>, s: int) -> bool {
    faces[s] is Spinner && touched(marks, bytes_before(spans, s), bytes_before(spans, s + 1))
}

proof fn a_line_is_composed_unless(spans: Seq<SpanView>, faces: Seq<Face>, marks: Seq<Mark>, n: int)
    requires
        faces.len() == spans.len(),
        0 <= n <= spans.len(),
    ensures
        composed(spans.take(n), faces.take(n), marks) is None <==> exists|s: int|
            0 <= s < n && #[trigger] spinner_touched(spans, faces, marks, s),
    decreases n,
{
    if n > 0 {
        a_line_is_composed_unless(spans, faces, marks, n - 1);
        let some = spans.take(n);
        assert(some.drop_last() =~= spans.take(n - 1));
        assert(faces.take(n).drop_last() =~= faces.take(n - 1));
        bytes_are_counted(spans, n);
        bytes_are_counted(spans, n - 1);
        let last = spinner_touched(spans, faces, marks, n - 1);
    }
}

proof fn lines_are_drawn_unless(
    lines: Seq<SnapshotLine>,
    decorations: Seq<Decoration>,
    faces: Faces,
)
    requires
        faces_fit(lines, decorations, faces),
    ensures
        drawable(lines, decorations, faces) <==> !cannot_draw(lines, decorations, faces),
{
    let styles = faces.decorations@;
    assert forall|d: int| 0 <= d < decorations.len() implies decoration_fits(
        lines,
        #[trigger] decorations[d],
    ) == !misses(lines, decorations[d]) by {
        if decorations[d].line < lines.len() {
            the_text_is_flat(lines[decorations[d].line as int]@);
        }
    }
    assert forall|i: int, s: int|
        0 <= i < lines.len() && 0 <= s < lines[i].spans@.len() implies (#[trigger] spinner_touched(
        lines[i]@,
        faces.spans@[i]@,
        marks_of(decorations, styles, i),
        s,
    ) <==> faces.spans@[i]@[s] is Spinner && exists|d: int| #[trigger]
        reaches(lines, decorations, i, s, d)) by {
        let start = bytes_before(lines[i]@, s);
        let end = bytes_before(lines[i]@, s + 1);
        marks_reach(decorations, styles, i, start, end);
        if exists|d: int|
            0 <= d < decorations.len() && (#[trigger] decorations[d]).line == i
                && decorations[d].bytes.start < end && start < decorations[d].bytes.end {
            let d = choose|d: int|
                0 <= d < decorations.len() && (#[trigger] decorations[d]).line == i
                    && decorations[d].bytes.start < end && start < decorations[d].bytes.end;
            assert(reaches(lines, decorations, i, s, d));
        }
        if exists|d: int| #[trigger] reaches(lines, decorations, i, s, d) {
            let d = choose|d: int| #[trigger] reaches(lines, decorations, i, s, d);
            assert(decorations[d].line == i);
        }
    }
    assert forall|i: int| 0 <= i < lines.len() implies (#[trigger] line_composed(
        lines,
        decorations,
        faces,
        i,
    ) is None <==> exists|s: int, d: int|
        0 <= s < lines[i].spans@.len() && faces.spans@[i]@[s] is Spinner && #[trigger] reaches(
            lines,
            decorations,
            i,
            s,
            d,
        )) by {
        let spans = lines[i]@;
        let fs = faces.spans@[i]@;
        assert(faces.spans@[i]@.len() == lines[i].spans@.len());
        let marks = marks_of(decorations, styles, i);
        let n = spans.len() as int;
        a_line_is_composed_unless(spans, fs, marks, n);
        assert(spans.take(n) =~= spans);
        assert(fs.take(n) =~= fs);
        if exists|s: int| 0 <= s < n && #[trigger] spinner_touched(spans, fs, marks, s) {
            let s = choose|s: int| 0 <= s < n && #[trigger] spinner_touched(spans, fs, marks, s);
            let d = choose|d: int| #[trigger] reaches(lines, decorations, i, s, d);
            assert(reaches(lines, decorations, i, s, d));
        }
        if exists|s: int, d: int|
            0 <= s < lines[i].spans@.len() && fs[s] is Spinner && #[trigger] reaches(
                lines,
                decorations,
                i,
                s,
                d,
            ) {
            let (s, d) = choose|s: int, d: int|
                0 <= s < lines[i].spans@.len() && fs[s] is Spinner && #[trigger] reaches(
                    lines,
                    decorations,
                    i,
                    s,
                    d,
                );
            assert(spinner_touched(spans, fs, marks, s));
        }
    }
    if !drawable(lines, decorations, faces) {
        if forall|d: int|
            0 <= d < decorations.len() ==> decoration_fits(lines, #[trigger] decorations[d]) {
            let i = choose|i: int|
                0 <= i < lines.len() && !(#[trigger] line_composed(
                    lines,
                    decorations,
                    faces,
                    i,
                ) is Some);
            assert(line_composed(lines, decorations, faces, i) is None);
        }
    }
    if cannot_draw(lines, decorations, faces) {
        if exists|i: int, s: int, d: int|
            0 <= i < lines.len() && 0 <= s < lines[i].spans@.len()
                && faces.spans@[i]@[s] is Spinner && #[trigger] reaches(
                lines,
                decorations,
                i,
                s,
                d,
            ) {
            let (i, s, d) = choose|i: int, s: int, d: int|
                0 <= i < lines.len() && 0 <= s < lines[i].spans@.len()
                    && faces.spans@[i]@[s] is Spinner && #[trigger] reaches(
                    lines,
                    decorations,
                    i,
                    s,
                    d,
                );
            assert(reaches(lines, decorations, i, s, d));
            assert(line_composed(lines, decorations, faces, i) is None);
        }
    }
}

/// A block is refused exactly when one of its objects cannot stand: a
/// decoration that is not on its line's characters or reaches into a spinner, a
/// raw sequence that is not accepted, or a body that is not there or already
/// placed.
pub proof fn a_block_is_refused_for_one_of_its_objects(
    objects: Seq<RenderObject>,
    faces: Seq<Faces>,
    tool: Option<ToolLines>,
    instructions: Option<ToolLines>,
)
    requires
        all_faces_fit(objects, faces),
    ensures
        laid_out(objects, faces, tool, instructions) is None <==> exists|k: int|
            0 <= k < objects.len() && #[trigger] refuses(objects, faces, tool, instructions, k),
    decreases objects.len(),
{
    if objects.len() > 0 {
        let rest = objects.drop_last();
        let fewer = faces.drop_last();
        let last = objects.len() - 1;
        assert forall|j: int|
            0 <= j < rest.len() && (#[trigger] rest[j]) is Lines implies faces_fit(
            rest[j]->lines@,
            rest[j]->decorations@,
            fewer[j],
        ) by {
            assert(rest[j] == objects[j]);
        }
        a_block_is_refused_for_one_of_its_objects(rest, fewer, tool, instructions);
        laid_out_is_as_high(rest, fewer, tool, instructions);
        assert forall|k: int| 0 <= k < last implies (#[trigger] refuses(
            rest,
            fewer,
            tool,
            instructions,
            k,
        ) == refuses(objects, faces, tool, instructions, k)) by {
            refusing_is_local(objects, faces, tool, instructions, k);
        }
        assert forall|j: int| 0 <= j < last implies rest[j] == #[trigger] objects[j] by {}
        let now = refuses(objects, faces, tool, instructions, last);
        match objects[last] {
            RenderObject::Lines { lines, decorations } => {
                assert(objects[last] is Lines);
                lines_are_drawn_unless(lines@, decorations@, faces[last]);
            },
            RenderObject::ToolBody => {
                if exists|j: int| 0 <= j < last && (#[trigger] objects[j]) is ToolBody {
                    let j = choose|j: int| 0 <= j < last && (#[trigger] objects[j]) is ToolBody;
                    assert(rest[j] is ToolBody);
                }
                if exists|j: int| 0 <= j < rest.len() && (#[trigger] rest[j]) is ToolBody {
                    let j = choose|j: int| 0 <= j < rest.len() && (#[trigger] rest[j]) is ToolBody;
                    assert(objects[j] is ToolBody);
                }
            },
            RenderObject::InstructionsBody => {
                if exists|j: int| 0 <= j < last && (#[trigger] objects[j]) is InstructionsBody {
                    let j = choose|j: int|
                        0 <= j < last && (#[trigger] objects[j]) is InstructionsBody;
                    assert(rest[j] is InstructionsBody);
                }
                if exists|j: int| 0 <= j < rest.len() && (#[trigger] rest[j]) is InstructionsBody {
                    let j = choose|j: int|
                        0 <= j < rest.len() && (#[trigger] rest[j]) is InstructionsBody;
                    assert(objects[j] is InstructionsBody);
                }
            },
            _ => {},
        }
        if exists|k: int|
            0 <= k < rest.len() && #[trigger] refuses(rest, fewer, tool, instructions, k) {
            let k = choose|k: int|
                0 <= k < rest.len() && #[trigger] refuses(rest, fewer, tool, instructions, k);
            assert(refuses(objects, faces, tool, instructions, k));
        }
        if exists|k: int|
            0 <= k < objects.len() && #[trigger] refuses(objects, faces, tool, instructions, k) {
            let k = choose|k: int|
                0 <= k < objects.len() && #[trigger] refuses(
                    objects,
                    faces,
                    tool,
                    instructions,
                    k,
                );
            if k < last {
                assert(refuses(rest, fewer, tool, instructions, k));
            }
        }
    }
}

proof fn refusing_is_local(
    objects: Seq<RenderObject>,
    faces: Seq<Faces>,
    tool: Option<ToolLines>,
    instructions: Option<ToolLines>,
    k: int,
)
    requires
        faces.len() == objects.len(),
        0 <= k < objects.len() - 1,
    ensures
        refuses(objects.drop_last(), faces.drop_last(), tool, instructions, k) == refuses(
            objects,
            faces,
            tool,
            instructions,
            k,
        ),
{
    let rest = objects.drop_last();
    assert(forall|j: int| 0 <= j < k ==> #[trigger] rest[j] == objects[j]);
    assert(forall|j: int| 0 <= j < k ==> rest[j] == #[trigger] objects[j]);
    assert(rest[k] == objects[k]);
    assert(faces.drop_last()[k] == faces[k]);
}

} // verus!
