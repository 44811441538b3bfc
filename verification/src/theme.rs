//! Render objects drawn with the active theme.

use crate::compose::{Face, Span};
use crate::layout::{
    all_faces_fit, bodies_can_move, finished, laid_out, lay_out, Rendered,
};
use crate::place::{faces_fit, Decoration, Faces, RenderObject, ToolLines};
use crate::snapshot::{SnapshotLine, SpanStyle};
use ratatui::style::Style;
use vstd::prelude::*;

verus! {

/// The active theme. Nothing is taken for granted of what it returns: what
/// the library makes of a style is stated for every style.
pub trait Theme {
    /// The terminal style of a span style.
    fn resolve_span_style(&self, style: &SpanStyle) -> Style;

    /// Whether a span style stands for a spinner, and then the style the
    /// spinner names, if it names one.
    fn spinner_style_name(&self, style: &SpanStyle) -> Option<Option<String>>;

    /// The first frame of a spinner.
    fn spinner_span(&self, style: &Option<String>) -> Span;
}

/// The theme draws a span style that way.
pub open spec fn drawn_as<T: Theme>(theme: &T, style: SpanStyle, face: Face) -> bool {
    match face {
        Face::Styled(resolved) => {
            &&& call_ensures(T::spinner_style_name, (theme, &style), None)
            &&& call_ensures(T::resolve_span_style, (theme, &style), resolved)
        },
        Face::Spinner { style: name, span } => {
            &&& call_ensures(T::spinner_style_name, (theme, &style), Some(name))
            &&& call_ensures(T::spinner_span, (theme, &name), span)
        },
    }
}

/// The theme draws the spans and decorations of a run of lines that way.
pub open spec fn painted<T: Theme>(
    theme: &T,
    source: Seq<SnapshotLine>,
    decorations: Seq<Decoration>,
    faces: Faces,
) -> bool {
    &&& faces_fit(source, decorations, faces)
    &&& forall|i: int, j: int|
        0 <= i < source.len() && 0 <= j < source[i].spans@.len() ==> drawn_as(
            theme,
            source[i].spans@[j].style,
            #[trigger] faces.spans@[i]@[j],
        )
    &&& forall|k: int|
        0 <= k < decorations.len() ==> call_ensures(
            T::resolve_span_style,
            (theme, &decorations[k].style),
            #[trigger] faces.decorations@[k],
        )
}

/// The theme draws the lines of every object that way.
pub open spec fn all_painted<T: Theme>(
    theme: &T,
    objects: Seq<RenderObject>,
    faces: Seq<Faces>,
) -> bool {
    &&& faces.len() == objects.len()
    &&& forall|k: int|
        0 <= k < objects.len() ==> ((#[trigger] objects[k]) is Lines ==> painted(
            theme,
            objects[k]->lines@,
            objects[k]->decorations@,
            faces[k],
        ))
}

fn paint_span<T: Theme>(style: &SpanStyle, theme: &T) -> (face: Face)
    ensures
        drawn_as(theme, *style, face),
{
    match theme.spinner_style_name(style) {
        Some(name) => {
            let span = theme.spinner_span(&name);
            Face::Spinner { style: name, span }
        },
        None => Face::Styled(theme.resolve_span_style(style)),
    }
}

fn paint_line<T: Theme>(line: &SnapshotLine, theme: &T) -> (faces: Vec<Face>)
    ensures
        faces@.len() == line.spans@.len(),
        forall|j: int|
            0 <= j < line.spans@.len() ==> drawn_as(
                theme,
                line.spans@[j].style,
                #[trigger] faces@[j],
            ),
{
    let mut faces: Vec<Face> = Vec::new();
    let mut j: usize = 0;
    while j < line.spans.len()
        invariant
            j <= line.spans@.len(),
            faces@.len() == j,
            forall|k: int|
                0 <= k < j ==> drawn_as(theme, line.spans@[k].style, #[trigger] faces@[k]),
        decreases line.spans@.len() - j,
    {
        faces.push(paint_span(&line.spans[j].style, theme));
        j += 1;
    }
    faces
}

fn paint_lines<T: Theme>(
    source: &Vec<SnapshotLine>,
    decorations: &Vec<Decoration>,
    theme: &T,
) -> (faces: Faces)
    ensures
        painted(theme, source@, decorations@, faces),
{
    let mut spans: Vec<Vec<Face>> = Vec::new();
    let mut i: usize = 0;
    while i < source.len()
        invariant
            i <= source@.len(),
            spans@.len() == i,
            forall|a: int|
                0 <= a < i ==> (#[trigger] spans@[a])@.len() == source@[a].spans@.len(),
            forall|a: int, b: int|
                0 <= a < i && 0 <= b < source@[a].spans@.len() ==> drawn_as(
                    theme,
                    source@[a].spans@[b].style,
                    #[trigger] spans@[a]@[b],
                ),
        decreases source@.len() - i,
    {
        let ghost before = spans@;
        spans.push(paint_line(&source[i], theme));
        assert(forall|a: int| 0 <= a < i ==> #[trigger] spans@[a] == before[a]);
        i += 1;
    }
    let mut styles: Vec<Style> = Vec::new();
    let mut k: usize = 0;
    while k < decorations.len()
        invariant
            k <= decorations@.len(),
            styles@.len() == k,
            forall|a: int|
                0 <= a < k ==> call_ensures(
                    T::resolve_span_style,
                    (theme, &decorations@[a].style),
                    #[trigger] styles@[a],
                ),
        decreases decorations@.len() - k,
    {
        styles.push(theme.resolve_span_style(&decorations[k].style));
        k += 1;
    }
    Faces { spans, decorations: styles }
}

/// Asks the theme how to draw the lines of every object.
pub fn paint<T: Theme>(objects: &Vec<RenderObject>, theme: &T) -> (faces: Vec<Faces>)
    ensures
        all_painted(theme, objects@, faces@),
{
    let mut faces: Vec<Faces> = Vec::new();
    let mut k: usize = 0;
    while k < objects.len()
        invariant
            k <= objects@.len(),
            faces@.len() == k,
            forall|a: int|
                0 <= a < k ==> ((#[trigger] objects@[a]) is Lines ==> painted(
                    theme,
                    objects@[a]->lines@,
                    objects@[a]->decorations@,
                    faces@[a],
                )),
        decreases objects@.len() - k,
    {
        let ghost before = faces@;
        let drawn = match &objects[k] {
            RenderObject::Lines { lines, decorations } => paint_lines(lines, decorations, theme),
            _ => Faces { spans: Vec::new(), decorations: Vec::new() },
        };
        faces.push(drawn);
        assert(forall|a: int| 0 <= a < k ==> faces@[a] == before[a]);
        k += 1;
    }
    faces
}

/// Render objects as the lines of a block, with the host's native bodies
/// available. At most one marker of each kind is allowed, and a marker must
/// have a body to place: anything else refuses the block, so a renderer can
/// position a body but never supply its content or metadata.
pub fn render_with_bodies<T: Theme>(
    objects: &Vec<RenderObject>,
    tool_lines: Option<ToolLines>,
    instruction_lines: Option<ToolLines>,
    theme: &T,
) -> (rendered: Option<Rendered>)
    requires
        bodies_can_move(objects@, tool_lines, instruction_lines),
    ensures
        exists|faces: Seq<Faces>| #[trigger]
            all_painted(theme, objects@, faces) && match rendered {
                Some(rendered) => laid_out(
                    objects@,
                    faces,
                    tool_lines,
                    instruction_lines,
                ) matches Some(laid) && rendered@ == finished(laid),
                None => laid_out(objects@, faces, tool_lines, instruction_lines) is None,
            },
{
    let faces = paint(objects, theme);
    assert(all_painted(theme, objects@, faces@));
    assert(all_faces_fit(objects@, faces@));
    lay_out(objects, &faces, tool_lines, instruction_lines)
}

/// [`render`] with the host's native tool body available.
pub fn render_with_tools<T: Theme>(
    objects: &Vec<RenderObject>,
    tool_lines: Option<ToolLines>,
    theme: &T,
) -> (rendered: Option<Rendered>)
    requires
        bodies_can_move(objects@, tool_lines, None),
    ensures
        exists|faces: Seq<Faces>| #[trigger]
            all_painted(theme, objects@, faces) && match rendered {
                Some(rendered) => laid_out(objects@, faces, tool_lines, None) matches Some(laid)
                    && rendered@ == finished(laid),
                None => laid_out(objects@, faces, tool_lines, None) is None,
            },
{
    render_with_bodies(objects, tool_lines, None, theme)
}

/// Render objects as the lines of a block plus the raw spans they place, with
/// no native body available. See [`render_with_bodies`].
pub fn render<T: Theme>(objects: &Vec<RenderObject>, theme: &T) -> (rendered: Option<Rendered>)
    ensures
        exists|faces: Seq<Faces>| #[trigger]
            all_painted(theme, objects@, faces) && match rendered {
                Some(rendered) => laid_out(objects@, faces, None, None) matches Some(laid)
                    && rendered@ == finished(laid),
                None => laid_out(objects@, faces, None, None) is None,
            },
{
    render_with_bodies(objects, None, None, theme)
}

} // verus!
