//! What is seen of a value, where a contract speaks of its view, is all that it
//! holds.

use crate::layout::Rendered;
use crate::overlay::{placement_views, Placement};
use crate::place::{BodyOut, ObjectView, RenderObject, ToolBody};
use crate::render::{BlockRender, Layer, RenderView};
use crate::snapshot::{line_views, span_views, SnapshotLine, SnapshotSpan};
use vstd::prelude::*;

verus! {

/// What is seen of a run of spans is each one's text and style.
pub proof fn spans_are_seen_whole(spans: Seq<SnapshotSpan>, i: int)
    ensures
        span_views(spans).len() == spans.len(),
        0 <= i < spans.len() ==> span_views(spans)[i].text == spans[i].text@ && span_views(
            spans,
        )[i].style == spans[i].style,
{
}

/// What is seen of a run of lines is each one's spans.
pub proof fn lines_are_seen_whole(lines: Seq<SnapshotLine>, i: int, j: int)
    ensures
        line_views(lines).len() == lines.len(),
        0 <= i < lines.len() ==> {
            let spans = lines[i].spans@;
            &&& line_views(lines)[i].len() == spans.len()
            &&& 0 <= j < spans.len() ==> line_views(lines)[i][j].text == spans[j].text@
                && line_views(lines)[i][j].style == spans[j].style
        },
{
}

/// What is seen of a render object is the object.
pub open spec fn object_is_seen(object: RenderObject, seen: ObjectView) -> bool {
    match object {
        RenderObject::Lines { lines, decorations } => seen == (ObjectView::Lines {
            lines: line_views(lines@),
            decorations: decorations@,
        }),
        RenderObject::Raw { seq, width, height } => seen == (ObjectView::Raw {
            seq: seq@,
            width,
            height,
        }),
        RenderObject::ToolBody => seen is ToolBody,
        RenderObject::InstructionsBody => seen is InstructionsBody,
    }
}

/// What is seen of a render is which kind it is, and all its objects, or who
/// failed and why.
pub proof fn a_render_is_seen_whole(render: BlockRender, i: int)
    ensures
        render is Unhandled <==> render@ is Unhandled,
        render matches BlockRender::Objects(objects) ==> (render@ matches RenderView::Objects(seen)
            && seen.len() == objects@.len() && (0 <= i < objects@.len() ==> object_is_seen(
            objects@[i],
            seen[i],
        ))),
        render matches BlockRender::Failed { plugin, message } ==> (
        render@ matches RenderView::Failed { plugin: by, message: told } && by == (*plugin)@ && told
            == message@),
{
}

/// What is seen of a run of placements is each one's rectangle and sequence.
pub proof fn placements_are_seen_whole(placements: Seq<Placement>, i: int)
    ensures
        placement_views(placements).len() == placements.len(),
        0 <= i < placements.len() ==> placement_views(placements)[i].rect == placements[i].rect
            && placement_views(placements)[i].seq == placements[i].seq@,
{
}

/// What is seen of a layer is whose it is and its key.
pub proof fn a_layer_is_seen_whole(layer: Layer)
    ensures
        layer@.plugin == (*layer.plugin)@,
        layer@.key == layer.key,
{
}

/// What is seen of a rendered block is what it holds.
pub proof fn a_rendered_block_is_seen_whole(rendered: Rendered, i: int, j: int)
    ensures
        rendered@.lines.len() == rendered.lines@.len(),
        0 <= i < rendered.lines@.len() ==> {
            let line = rendered.lines@[i];
            let seen = rendered@.lines[i];
            &&& seen.style == line.style
            &&& seen.alignment == line.alignment
            &&& seen.spans.len() == line.spans@.len()
            &&& 0 <= j < line.spans@.len() ==> seen.spans[j].text == line.spans@[j].content@
                && seen.spans[j].style == line.spans@[j].style
        },
        rendered@.raw.len() == rendered.raw@.len(),
        0 <= i < rendered.raw@.len() ==> {
            let raw = rendered.raw@[i];
            let seen = rendered@.raw[i];
            &&& seen.row == raw.row
            &&& seen.seq == raw.seq@
            &&& seen.width == raw.width
            &&& seen.height == raw.height
        },
        rendered@.tool is Some <==> rendered.tool is Some,
        rendered.tool matches Some(body) ==> body_is_seen(body, rendered@.tool->Some_0),
        rendered@.instructions is Some <==> rendered.instructions is Some,
        rendered.instructions matches Some(body) ==> body_is_seen(
            body,
            rendered@.instructions->Some_0,
        ),
        rendered@.spinner_lines == rendered.spinner_lines@,
{
}

/// What is seen of a placed body is what it holds.
pub open spec fn body_is_seen(body: ToolBody, seen: BodyOut) -> bool {
    &&& seen.offset == body.offset
    &&& seen.highlight == body.highlight
    &&& seen.spinner_lines == body.spinner_lines@
    &&& seen.snapshot_base == body.snapshot_base
    &&& seen.content_indent == body.content_indent@
    &&& seen.truncation == body.truncation
}

} // verus!
