//! Render objects laid out as the lines of a block, with the raw rectangles,
//! spinners and native bodies they place.

use crate::compose::{
    bare, composed, line_bytes, marks_fit, on_boundaries, render_line, Composed, Face, Line, Mark,
    SpinnerLine,
};
use crate::message::{ByteRange, SectionFlags, ToolInput, ToolOutput};
use crate::snapshot::{line_views, spans_text, SnapshotLine, SpanStyle, SpanView};
use ratatui::style::Style;
use std::sync::Arc;
use vstd::prelude::*;

verus! {

/// Bounds a raw object's rectangle so a plugin cannot ask for an unbounded
/// run of placeholder cells.
pub const MAX_RAW_WIDTH: u16 = 256;

/// See [`MAX_RAW_WIDTH`].
pub const MAX_RAW_HEIGHT: u16 = 128;

/// A style laid over part of a line.
#[derive(Debug, PartialEq)]
pub struct Decoration {
    pub line: usize,
    pub bytes: ByteRange,
    pub group: String,
    pub style: SpanStyle,
}

/// What a renderer returns for a block.
#[derive(Debug, PartialEq)]
pub enum RenderObject {
    /// Styled lines, with decorations over them.
    Lines { lines: Vec<SnapshotLine>, decorations: Vec<Decoration> },
    /// A raw terminal sequence in a rectangle of its own.
    Raw { seq: String, width: u16, height: u16 },
    /// The host's native tool body.
    ToolBody,
    /// The host's native instructions body.
    InstructionsBody,
}

/// What a [`RenderObject`] holds.
pub enum ObjectView {
    Lines { lines: Seq<Seq<SpanView>>, decorations: Seq<Decoration> },
    Raw { seq: Seq<char>, width: u16, height: u16 },
    ToolBody,
    InstructionsBody,
}

impl View for RenderObject {
    type V = ObjectView;

    open spec fn view(&self) -> ObjectView {
        match *self {
            RenderObject::Lines { lines, decorations } => ObjectView::Lines {
                lines: line_views(lines@),
                decorations: decorations@,
            },
            RenderObject::Raw { seq, width, height } => ObjectView::Raw { seq: seq@, width, height },
            RenderObject::ToolBody => ObjectView::ToolBody,
            RenderObject::InstructionsBody => ObjectView::InstructionsBody,
        }
    }
}

/// A raw sequence and where its rectangle starts inside the block's lines.
pub struct RawSpan {
    /// Source line index the span begins on, used to find its display row.
    pub row: usize,
    pub seq: String,
    pub width: u16,
    pub height: u16,
}

/// What a [`RawSpan`] holds.
pub struct RawOut {
    pub row: nat,
    pub seq: Seq<char>,
    pub width: u16,
    pub height: u16,
}

impl View for RawSpan {
    type V = RawOut;

    open spec fn view(&self) -> RawOut {
        RawOut { row: self.row as nat, seq: self.seq@, width: self.width, height: self.height }
    }
}

/// How many rows each section of a tool body may take.
#[derive(Debug, Clone, Copy, PartialEq, Eq, Structural)]
pub struct RenderLimits {
    pub script: usize,
    pub output: usize,
}

/// Lines of a native body to highlight once the highlighter is done.
pub struct HighlightRequest {
    /// First line and the one behind the last.
    pub range: (usize, usize),
    pub input: Option<Arc<ToolInput>>,
    pub output: Option<Arc<ToolOutput>>,
    pub limits: RenderLimits,
}

/// A native body the host has drawn, with the metadata it keeps about it.
pub struct ToolLines {
    pub lines: Vec<Line>,
    pub highlight: Option<HighlightRequest>,
    pub spinner_lines: Vec<SpinnerLine>,
    pub snapshot_base: Option<usize>,
    pub content_indent: &'static str,
    pub truncation: SectionFlags,
}

/// A native body placed in a block, its metadata shifted to where the
/// renderer put it.
pub struct ToolBody {
    /// Index of the body's first line in the rendered block.
    pub offset: usize,
    /// Highlight request with its range already shifted. The host owns the
    /// async highlight; a renderer never sees or sets it.
    pub highlight: Option<HighlightRequest>,
    pub spinner_lines: Vec<SpinnerLine>,
    pub snapshot_base: Option<usize>,
    pub content_indent: &'static str,
    pub truncation: SectionFlags,
}

/// What a [`ToolBody`] holds.
pub struct BodyOut {
    pub offset: nat,
    pub highlight: Option<HighlightRequest>,
    pub spinner_lines: Seq<SpinnerLine>,
    pub snapshot_base: Option<usize>,
    pub content_indent: Seq<char>,
    pub truncation: SectionFlags,
}

impl View for ToolBody {
    type V = BodyOut;

    open spec fn view(&self) -> BodyOut {
        BodyOut {
            offset: self.offset as nat,
            highlight: self.highlight,
            spinner_lines: self.spinner_lines@,
            snapshot_base: self.snapshot_base,
            content_indent: self.content_indent@,
            truncation: self.truncation,
        }
    }
}

/// The spinners moved down by `n` lines.
pub open spec fn moved_down(spinners: Seq<SpinnerLine>, n: nat) -> Seq<SpinnerLine> {
    spinners.map_values(
        |spinner: SpinnerLine|
            SpinnerLine {
                line: (spinner.line + n) as usize,
                span: spinner.span,
                style: spinner.style,
            },
    )
}

/// Every line index of a body can be moved down by `n` lines.
pub open spec fn can_move_down(body: ToolLines, n: nat) -> bool {
    &&& body.highlight matches Some(request) ==> request.range.0 + n <= usize::MAX
        && request.range.1 + n <= usize::MAX
    &&& forall|k: int|
        0 <= k < body.spinner_lines@.len() ==> (#[trigger] body.spinner_lines@[k]).line + n
            <= usize::MAX
    &&& body.snapshot_base matches Some(base) ==> base + n <= usize::MAX
}

/// A native body placed `n` lines down.
pub open spec fn body_at(body: ToolLines, n: nat) -> BodyOut {
    BodyOut {
        offset: n,
        highlight: match body.highlight {
            Some(request) => Some(
                HighlightRequest {
                    range: ((request.range.0 + n) as usize, (request.range.1 + n) as usize),
                    input: request.input,
                    output: request.output,
                    limits: request.limits,
                },
            ),
            None => None,
        },
        spinner_lines: moved_down(body.spinner_lines@, n),
        snapshot_base: match body.snapshot_base {
            Some(base) => Some((base + n) as usize),
            None => None,
        },
        content_indent: body.content_indent@,
        truncation: body.truncation,
    }
}

/// The spinners moved down by `n` lines.
pub(crate) fn move_down(spinners: Vec<SpinnerLine>, n: usize) -> (moved: Vec<SpinnerLine>)
    requires
        forall|k: int|
            0 <= k < spinners@.len() ==> (#[trigger] spinners@[k]).line + n <= usize::MAX,
    ensures
        moved@ == moved_down(spinners@, n as nat),
{
    let mut moved: Vec<SpinnerLine> = Vec::new();
    let mut i: usize = 0;
    while i < spinners.len()
        invariant
            forall|k: int|
                0 <= k < spinners@.len() ==> (#[trigger] spinners@[k]).line + n <= usize::MAX,
            i <= spinners@.len(),
            moved@ == moved_down(spinners@, n as nat).take(i as int),
        decreases spinners@.len() - i,
    {
        let spinner = &spinners[i];
        assert(spinners@[i as int].line + n <= usize::MAX);
        moved.push(
            SpinnerLine {
                line: spinner.line + n,
                span: spinner.span,
                style: spinner.style.clone(),
            },
        );
        assert(moved@ =~= moved_down(spinners@, n as nat).take(i + 1));
        i += 1;
    }
    assert(moved_down(spinners@, n as nat).take(i as int) =~= moved_down(spinners@, n as nat));
    moved
}

/// Places a native body, with its metadata shifted to where its first line
/// landed.
pub fn place_tool_body(body: ToolLines, offset: usize) -> (placed: ToolBody)
    requires
        can_move_down(body, offset as nat),
    ensures
        placed@ == body_at(body, offset as nat),
{
    let highlight = match body.highlight {
        Some(request) => Some(
            HighlightRequest {
                range: (request.range.0 + offset, request.range.1 + offset),
                input: request.input,
                output: request.output,
                limits: request.limits,
            },
        ),
        None => None,
    };
    let snapshot_base = match body.snapshot_base {
        Some(base) => Some(base + offset),
        None => None,
    };
    ToolBody {
        offset,
        highlight,
        spinner_lines: move_down(body.spinner_lines, offset),
        snapshot_base,
        content_indent: body.content_indent,
        truncation: body.truncation,
    }
}

/// Whether a decoration can be laid over the lines: its line is there, and
/// its bytes can be cut out of that line's text.
pub open spec fn decoration_fits(source: Seq<SnapshotLine>, decoration: Decoration) -> bool {
    &&& decoration.line < source.len()
    &&& decoration.bytes.end <= line_bytes(source[decoration.line as int]@)
    &&& on_boundaries(spans_text(source[decoration.line as int]@), decoration.bytes)
}

/// The decorations of one line, in order, each with the style it lays over.
pub open spec fn marks_of(decorations: Seq<Decoration>, styles: Seq<Style>, line: int) -> Seq<Mark>
    decreases decorations.len(),
{
    if decorations.len() == 0 {
        seq![]
    } else {
        let before = marks_of(decorations.drop_last(), styles.drop_last(), line);
        if decorations.last().line == line {
            before.push(Mark { bytes: decorations.last().bytes, style: styles.last() })
        } else {
            before
        }
    }
}

/// How the theme draws the spans and decorations of a run of lines.
pub struct Faces {
    pub spans: Vec<Vec<Face>>,
    pub decorations: Vec<Style>,
}

/// One face per span of every line, one style per decoration.
pub open spec fn faces_fit(
    source: Seq<SnapshotLine>,
    decorations: Seq<Decoration>,
    faces: Faces,
) -> bool {
    &&& faces.decorations@.len() == decorations.len()
    &&& faces.spans@.len() == source.len()
    &&& forall|i: int|
        0 <= i < source.len() ==> (#[trigger] faces.spans@[i])@.len() == source[i].spans@.len()
}

/// One line of a run, composed.
pub open spec fn line_composed(
    source: Seq<SnapshotLine>,
    decorations: Seq<Decoration>,
    faces: Faces,
    i: int,
) -> Option<Composed> {
    composed(source[i]@, faces.spans@[i]@, marks_of(decorations, faces.decorations@, i))
}

/// A run of decorated lines can be drawn: every decoration fits and no line
/// is refused.
pub open spec fn drawable(
    source: Seq<SnapshotLine>,
    decorations: Seq<Decoration>,
    faces: Faces,
) -> bool {
    &&& forall|k: int|
        0 <= k < decorations.len() ==> decoration_fits(source, #[trigger] decorations[k])
    &&& forall|i: int|
        0 <= i < source.len() ==> #[trigger] line_composed(source, decorations, faces, i) is Some
}

/// A run of decorated lines, drawn.
pub open spec fn drawn(
    source: Seq<SnapshotLine>,
    decorations: Seq<Decoration>,
    faces: Faces,
) -> Seq<Composed> {
    Seq::new(source.len(), |i: int| line_composed(source, decorations, faces, i)->Some_0)
}

/// A drawn line holds what was composed: the spans alone, and its spinners.
pub open spec fn is_drawn(made: Composed, line: (Line, Vec<SpinnerLine>)) -> bool {
    line.0@ == bare(made.spans) && line.1@ == made.spinners
}

/// The line at `i` is drawn as it was composed.
pub open spec fn line_is_drawn(
    source: Seq<SnapshotLine>,
    decorations: Seq<Decoration>,
    faces: Faces,
    made: Seq<(Line, Vec<SpinnerLine>)>,
    i: int,
) -> bool {
    line_composed(source, decorations, faces, i) matches Some(line) && is_drawn(line, made[i])
}

/// The text of a line.
fn line_text(line: &SnapshotLine) -> (joined: String)
    ensures
        joined@ == spans_text(line@),
{
    let mut joined = String::new();
    let mut i: usize = 0;
    assert(line@.take(0) =~= seq![]);
    while i < line.spans.len()
        invariant
            i <= line.spans@.len(),
            joined@ == spans_text(line@.take(i as int)),
        decreases line.spans@.len() - i,
    {
        assert(line@.take(i + 1).drop_last() =~= line@.take(i as int));
        assert(line@.take(i + 1).last() == line.spans@[i as int]@);
        joined.append(line.spans[i].text.as_str());
        i += 1;
    }
    assert(line@.take(i as int) =~= line@);
    joined
}

/// The decorations of one line, in order, each with the style it lays over.
fn line_marks(decorations: &Vec<Decoration>, styles: &Vec<Style>, line: usize) -> (marks: Vec<Mark>)
    requires
        styles@.len() == decorations@.len(),
    ensures
        marks@ == marks_of(decorations@, styles@, line as int),
{
    let mut marks: Vec<Mark> = Vec::new();
    let mut i: usize = 0;
    assert(decorations@.take(0) =~= seq![]);
    while i < decorations.len()
        invariant
            styles@.len() == decorations@.len(),
            i <= decorations@.len(),
            marks@ == marks_of(decorations@.take(i as int), styles@.take(i as int), line as int),
        decreases decorations@.len() - i,
    {
        proof {
            assert(decorations@.take(i + 1).drop_last() =~= decorations@.take(i as int));
            assert(styles@.take(i + 1).drop_last() =~= styles@.take(i as int));
        }
        if decorations[i].line == line {
            marks.push(Mark { bytes: decorations[i].bytes, style: styles[i] });
        }
        i += 1;
    }
    assert(decorations@.take(i as int) =~= decorations@);
    assert(styles@.take(i as int) =~= styles@);
    marks
}

/// Decorations that fit make marks that fit.
pub(crate) proof fn marks_of_fit(
    source: Seq<SnapshotLine>,
    decorations: Seq<Decoration>,
    styles: Seq<Style>,
    line: int,
)
    requires
        0 <= line < source.len(),
        styles.len() == decorations.len(),
        forall|k: int|
            0 <= k < decorations.len() ==> decoration_fits(source, #[trigger] decorations[k]),
    ensures
        marks_fit(spans_text(source[line]@), marks_of(decorations, styles, line)),
    decreases decorations.len(),
{
    if decorations.len() > 0 {
        let rest = decorations.drop_last();
        assert forall|k: int| 0 <= k < rest.len() implies decoration_fits(
            source,
            #[trigger] rest[k],
        ) by {
            assert(rest[k] == decorations[k]);
        }
        marks_of_fit(source, rest, styles.drop_last(), line);
        assert(decoration_fits(source, decorations[decorations.len() - 1]));
    }
}

/// Draws a run of lines with its decorations, one line after another with the
/// spinners it carries. `None` when a decoration does not fit its line or
/// reaches into a spinner.
pub fn render_lines(
    source: &Vec<SnapshotLine>,
    decorations: &Vec<Decoration>,
    faces: &Faces,
) -> (made: Option<Vec<(Line, Vec<SpinnerLine>)>>)
    requires
        faces_fit(source@, decorations@, *faces),
    ensures
        made is Some <==> drawable(source@, decorations@, *faces),
        made matches Some(made) ==> made@.len() == source@.len() && forall|i: int|
            0 <= i < made@.len() ==> is_drawn(
                drawn(source@, decorations@, *faces)[i],
                #[trigger] made@[i],
            ),
{
    let mut k: usize = 0;
    while k < decorations.len()
        invariant
            k <= decorations@.len(),
            forall|j: int|
                0 <= j < k ==> decoration_fits(source@, #[trigger] decorations@[j]),
        decreases decorations@.len() - k,
    {
        let decoration = &decorations[k];
        if decoration.line >= source.len() {
            assert(!decoration_fits(source@, decorations@[k as int]));
            return None;
        }
        let joined = line_text(&source[decoration.line]);
        let content = joined.as_str();
        if decoration.bytes.end > content.as_bytes().len() || !content.is_char_boundary(
            decoration.bytes.start,
        ) || !content.is_char_boundary(decoration.bytes.end) {
            assert(!decoration_fits(source@, decorations@[k as int]));
            return None;
        }
        k += 1;
    }
    let mut made: Vec<(Line, Vec<SpinnerLine>)> = Vec::new();
    let mut i: usize = 0;
    while i < source.len()
        invariant
            faces_fit(source@, decorations@, *faces),
            forall|j: int|
                0 <= j < decorations@.len() ==> decoration_fits(
                    source@,
                    #[trigger] decorations@[j],
                ),
            i <= source@.len(),
            made@.len() == i,
            forall|j: int|
                0 <= j < i ==> #[trigger] line_is_drawn(
                    source@,
                    decorations@,
                    *faces,
                    made@,
                    j,
                ),
        decreases source@.len() - i,
    {
        // Holding the line's text shows that its bytes can be counted.
        let joined = line_text(&source[i]);
        let _bytes = joined.as_str().as_bytes().len();
        let marks = line_marks(decorations, &faces.decorations, i);
        proof {
            marks_of_fit(source@, decorations@, faces.decorations@, i as int);
            assert(faces.spans@[i as int]@.len() == source@[i as int].spans@.len());
        }
        match render_line(&source[i], &faces.spans[i], &marks) {
            Some(line) => {
                let ghost before = made@;
                made.push(line);
                assert(is_drawn(
                    line_composed(source@, decorations@, *faces, i as int)->Some_0,
                    line,
                ));
                assert forall|j: int| 0 <= j <= i implies #[trigger] line_is_drawn(
                    source@,
                    decorations@,
                    *faces,
                    made@,
                    j,
                ) by {
                    if j < i {
                        assert(line_is_drawn(source@, decorations@, *faces, before, j));
                    }
                }
            },
            None => {
                assert(line_composed(source@, decorations@, *faces, i as int) is None);
                return None;
            },
        }
        i += 1;
    }
    proof {
        assert forall|j: int| 0 <= j < source@.len() implies #[trigger] line_composed(
            source@,
            decorations@,
            *faces,
            j,
        ) is Some by {
            assert(line_is_drawn(source@, decorations@, *faces, made@, j));
        }
        assert forall|j: int| 0 <= j < source@.len() implies is_drawn(
            drawn(source@, decorations@, *faces)[j],
            #[trigger] made@[j],
        ) by {
            assert(line_is_drawn(source@, decorations@, *faces, made@, j));
        }
    }
    Some(made)
}

} // verus!
