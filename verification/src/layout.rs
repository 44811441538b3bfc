//! A block's render objects laid out one below the other.

use crate::compose::{
    bare, composed, Composed, Face, Line, LineOut, Mark, Span, SpanOut, SpinnerLine,
};
use crate::place::{
    body_at, can_move_down, drawable, drawn, faces_fit, is_drawn, line_composed, marks_of, move_down,
    moved_down, place_tool_body, render_lines, BodyOut, Faces, RawOut, RawSpan, RenderObject,
    ToolBody, ToolLines, MAX_RAW_HEIGHT, MAX_RAW_WIDTH,
};
use crate::raw::{validate, verdict};
use crate::snapshot::SpanView;
use crate::style::{plain, plain_style};
use vstd::prelude::*;
use vstd::utf8::encode_utf8;

verus! {

/// The lines a block render produced, plus the bodies it placed, if any, and
/// the spinner spans the renderer's own lines carry.
pub struct Rendered {
    pub lines: Vec<Line>,
    pub raw: Vec<RawSpan>,
    pub tool: Option<ToolBody>,
    pub instructions: Option<ToolBody>,
    pub spinner_lines: Vec<SpinnerLine>,
}

/// The contents of a run of lines.
pub open spec fn line_outs(lines: Seq<Line>) -> Seq<LineOut> {
    lines.map_values(|line: Line| line@)
}

/// The contents of a run of raw spans.
pub open spec fn raw_outs(raw: Seq<RawSpan>) -> Seq<RawOut> {
    raw.map_values(|span: RawSpan| span@)
}

/// A block so far: what is laid out, and which native bodies are still to be
/// placed.
pub struct Laid {
    pub lines: Seq<LineOut>,
    pub raw: Seq<RawOut>,
    pub spinner_lines: Seq<SpinnerLine>,
    pub tool_left: Option<ToolLines>,
    pub instructions_left: Option<ToolLines>,
    pub tool: Option<BodyOut>,
    pub instructions: Option<BodyOut>,
}

/// A number held below a bound.
pub open spec fn at_most(n: u16, bound: u16) -> u16 {
    if n <= bound {
        n
    } else {
        bound
    }
}

/// A line of placeholder cells. The final writer overwrites them with the raw
/// sequence once the frame is drawn.
pub open spec fn placeholder(width: nat) -> LineOut {
    bare(seq![SpanOut { text: Seq::new(width, |k: int| ' '), style: plain_style() }])
}

/// The composed lines, each its spans and nothing else.
pub open spec fn composed_lines(made: Seq<Composed>) -> Seq<LineOut> {
    made.map_values(|line: Composed| bare(line.spans))
}

/// The spinners of composed lines of which the first is line `base`.
pub open spec fn composed_spinners(made: Seq<Composed>, base: nat) -> Seq<SpinnerLine>
    decreases made.len(),
{
    if made.len() == 0 {
        seq![]
    } else {
        composed_spinners(made.drop_last(), base) + moved_down(
            made.last().spinners,
            base + made.drop_last().len(),
        )
    }
}

/// One more object laid out below what is there. Lines that cannot be drawn,
/// a raw sequence that is not accepted, and a marker whose body is not there
/// or already placed refuse the block.
pub open spec fn lay_next(laid: Laid, object: RenderObject, faces: Faces) -> Option<Laid> {
    match object {
        RenderObject::Lines { lines, decorations } => if drawable(
            lines@,
            decorations@,
            faces,
        ) {
            let made = drawn(lines@, decorations@, faces);
            Some(
                Laid {
                    lines: laid.lines + composed_lines(made),
                    spinner_lines: laid.spinner_lines + composed_spinners(made, laid.lines.len()),
                    ..laid
                },
            )
        } else {
            None
        },
        RenderObject::Raw { seq, width, height } => if verdict(encode_utf8(seq@)) is Ok {
            let width = at_most(width, MAX_RAW_WIDTH);
            let height = at_most(height, MAX_RAW_HEIGHT);
            Some(
                Laid {
                    lines: laid.lines + Seq::new(height as nat, |k: int| placeholder(width as nat)),
                    raw: laid.raw.push(
                        RawOut { row: laid.lines.len(), seq: seq@, width, height },
                    ),
                    ..laid
                },
            )
        } else {
            None
        },
        RenderObject::ToolBody => match laid.tool_left {
            Some(body) => Some(
                Laid {
                    lines: laid.lines + line_outs(body.lines@),
                    tool_left: None,
                    tool: Some(body_at(body, laid.lines.len())),
                    ..laid
                },
            ),
            None => None,
        },
        RenderObject::InstructionsBody => match laid.instructions_left {
            Some(body) => Some(
                Laid {
                    lines: laid.lines + line_outs(body.lines@),
                    instructions_left: None,
                    instructions: Some(body_at(body, laid.lines.len())),
                    ..laid
                },
            ),
            None => None,
        },
    }
}

/// The objects laid out, or `None` when one of them is refused.
pub open spec fn laid_out(
    objects: Seq<RenderObject>,
    faces: Seq<Faces>,
    tool: Option<ToolLines>,
    instructions: Option<ToolLines>,
) -> Option<Laid>
    decreases objects.len(),
{
    if objects.len() == 0 {
        Some(
            Laid {
                lines: seq![],
                raw: seq![],
                spinner_lines: seq![],
                tool_left: tool,
                instructions_left: instructions,
                tool: None,
                instructions: None,
            },
        )
    } else {
        match laid_out(objects.drop_last(), faces.drop_last(), tool, instructions) {
            Some(laid) => lay_next(laid, objects.last(), faces.last()),
            None => None,
        }
    }
}

/// How many lines a native body has.
pub open spec fn body_height(body: Option<ToolLines>) -> nat {
    match body {
        Some(body) => body.lines@.len(),
        None => 0,
    }
}

/// How many lines the objects take.
pub open spec fn height(
    objects: Seq<RenderObject>,
    tool: Option<ToolLines>,
    instructions: Option<ToolLines>,
) -> nat
    decreases objects.len(),
{
    if objects.len() == 0 {
        0
    } else {
        height(objects.drop_last(), tool, instructions) + match objects.last() {
            RenderObject::Lines { lines, .. } => lines@.len(),
            RenderObject::Raw { height, .. } => at_most(height, MAX_RAW_HEIGHT) as nat,
            RenderObject::ToolBody => body_height(tool),
            RenderObject::InstructionsBody => body_height(instructions),
        }
    }
}

/// Whether the object at `k` is the first that places the tool body.
pub open spec fn first_tool(objects: Seq<RenderObject>, k: int) -> bool {
    &&& 0 <= k < objects.len()
    &&& objects[k] is ToolBody
    &&& forall|j: int| 0 <= j < k ==> !((#[trigger] objects[j]) is ToolBody)
}

/// Whether the object at `k` is the first that places the instructions body.
pub open spec fn first_instructions(objects: Seq<RenderObject>, k: int) -> bool {
    &&& 0 <= k < objects.len()
    &&& objects[k] is InstructionsBody
    &&& forall|j: int| 0 <= j < k ==> !((#[trigger] objects[j]) is InstructionsBody)
}

/// The line indices of the bodies stay `usize`s where the objects place them.
pub open spec fn bodies_can_move(
    objects: Seq<RenderObject>,
    tool: Option<ToolLines>,
    instructions: Option<ToolLines>,
) -> bool {
    &&& forall|k: int| #[trigger]
        first_tool(objects, k) ==> (tool matches Some(body) ==> can_move_down(
            body,
            height(objects.take(k), tool, instructions),
        ))
    &&& forall|k: int| #[trigger]
        first_instructions(objects, k) ==> (instructions matches Some(body) ==> can_move_down(
            body,
            height(objects.take(k), tool, instructions),
        ))
}

/// The faces match the objects they are for.
pub open spec fn all_faces_fit(objects: Seq<RenderObject>, faces: Seq<Faces>) -> bool {
    &&& faces.len() == objects.len()
    &&& forall|k: int|
        0 <= k < objects.len() ==> ((#[trigger] objects[k]) is Lines ==> faces_fit(
            objects[k]->lines@,
            objects[k]->decorations@,
            faces[k],
        ))
}

/// What is laid out is as high as the objects, and a body is left exactly as
/// long as no object has placed it.
pub proof fn laid_out_is_as_high(
    objects: Seq<RenderObject>,
    faces: Seq<Faces>,
    tool: Option<ToolLines>,
    instructions: Option<ToolLines>,
)
    ensures
        laid_out(objects, faces, tool, instructions) matches Some(laid) ==> {
            &&& laid.lines.len() == height(objects, tool, instructions)
            &&& laid.tool_left == if exists|j: int|
                0 <= j < objects.len() && (#[trigger] objects[j]) is ToolBody {
                None
            } else {
                tool
            }
            &&& laid.instructions_left == if exists|j: int|
                0 <= j < objects.len() && (#[trigger] objects[j]) is InstructionsBody {
                None
            } else {
                instructions
            }
        },
    decreases objects.len(),
{
    if objects.len() > 0 {
        let rest = objects.drop_last();
        laid_out_is_as_high(rest, faces.drop_last(), tool, instructions);
        assert(forall|j: int| 0 <= j < rest.len() ==> rest[j] == #[trigger] objects[j]);
        assert(objects[objects.len() - 1] == objects.last());
        let earlier_tool = exists|j: int|
            0 <= j < rest.len() && (#[trigger] rest[j]) is ToolBody;
        let earlier_instructions = exists|j: int|
            0 <= j < rest.len() && (#[trigger] rest[j]) is InstructionsBody;
        if earlier_tool {
            let j = choose|j: int| 0 <= j < rest.len() && (#[trigger] rest[j]) is ToolBody;
            assert(objects[j] is ToolBody);
        }
        if earlier_instructions {
            let j = choose|j: int| 0 <= j < rest.len() && (#[trigger] rest[j]) is InstructionsBody;
            assert(objects[j] is InstructionsBody);
        }
        if !earlier_tool && !(objects.last() is ToolBody) {
            assert forall|j: int| 0 <= j < objects.len() implies !((#[trigger] objects[j]) is ToolBody)
                by {
                if j < rest.len() {
                    assert(rest[j] == objects[j]);
                }
            }
        }
        if !earlier_instructions && !(objects.last() is InstructionsBody) {
            assert forall|j: int| 0 <= j < objects.len() implies !((
            #[trigger] objects[j]) is InstructionsBody) by {
                if j < rest.len() {
                    assert(rest[j] == objects[j]);
                }
            }
        }
    }
}

/// What a [`Rendered`] holds.
pub struct RenderedOut {
    pub lines: Seq<LineOut>,
    pub raw: Seq<RawOut>,
    pub tool: Option<BodyOut>,
    pub instructions: Option<BodyOut>,
    pub spinner_lines: Seq<SpinnerLine>,
}

/// The contents of a placed body.
pub open spec fn body_out(body: Option<ToolBody>) -> Option<BodyOut> {
    match body {
        Some(body) => Some(body@),
        None => None,
    }
}

impl View for Rendered {
    type V = RenderedOut;

    open spec fn view(&self) -> RenderedOut {
        RenderedOut {
            lines: line_outs(self.lines@),
            raw: raw_outs(self.raw@),
            tool: body_out(self.tool),
            instructions: body_out(self.instructions),
            spinner_lines: self.spinner_lines@,
        }
    }
}

/// What is laid out, once all objects are.
pub open spec fn finished(laid: Laid) -> RenderedOut {
    RenderedOut {
        lines: laid.lines,
        raw: laid.raw,
        tool: laid.tool,
        instructions: laid.instructions,
        spinner_lines: laid.spinner_lines,
    }
}

/// A line of placeholder cells.
fn placeholder_line(width: u16) -> (line: Line)
    ensures
        line@ == placeholder(width as nat),
{
    let mut content = String::new();
    let mut i: u16 = 0;
    while i < width
        invariant
            i <= width,
            content@ == Seq::new(i as nat, |k: int| ' '),
        decreases width - i,
    {
        content.push(' ');
        assert(content@ =~= Seq::new((i + 1) as nat, |k: int| ' '));
        i += 1;
    }
    let mut spans: Vec<Span> = Vec::new();
    spans.push(Span { content, style: plain() });
    let line = Line { spans, style: plain(), alignment: None };
    assert(line@.spans =~= placeholder(width as nat).spans);
    line
}

/// Appends `height` lines of placeholder cells.
fn push_placeholders(lines: &mut Vec<Line>, width: u16, height: u16)
    ensures
        line_outs(final(lines)@) == line_outs(old(lines)@) + Seq::new(
            height as nat,
            |k: int| placeholder(width as nat),
        ),
{
    let ghost before = line_outs(lines@);
    let mut i: u16 = 0;
    assert(before + Seq::new(0, |k: int| placeholder(width as nat)) =~= before);
    while i < height
        invariant
            i <= height,
            line_outs(lines@) == before + Seq::new(i as nat, |k: int| placeholder(width as nat)),
        decreases height - i,
    {
        let ghost so_far = lines@;
        lines.push(placeholder_line(width));
        assert(line_outs(lines@) =~= line_outs(so_far).push(placeholder(width as nat)));
        assert(line_outs(lines@) =~= before + Seq::new(
            (i + 1) as nat,
            |k: int| placeholder(width as nat),
        ));
        i += 1;
    }
}

/// Appends drawn lines, and their spinners with the lines they landed on.
fn push_lines(
    lines: &mut Vec<Line>,
    spinner_lines: &mut Vec<SpinnerLine>,
    made: Vec<(Line, Vec<SpinnerLine>)>,
    Ghost(all): Ghost<Seq<Composed>>,
)
    requires
        made@.len() == all.len(),
        forall|i: int| 0 <= i < all.len() ==> is_drawn(all[i], #[trigger] made@[i]),
        forall|i: int, j: int|
            0 <= i < all.len() && 0 <= j < all[i].spinners.len() ==> (
            #[trigger] all[i].spinners[j]).line == 0,
    ensures
        line_outs(final(lines)@) == line_outs(old(lines)@) + composed_lines(all),
        final(spinner_lines)@ == old(spinner_lines)@ + composed_spinners(
            all,
            old(lines)@.len(),
        ),
{
    let ghost before = lines@;
    let ghost spun = spinner_lines@;
    let ghost source = made@;
    assert(composed_lines(all.take(0)) =~= seq![]);
    assert(line_outs(before) + composed_lines(all.take(0)) =~= line_outs(before));
    assert(spun + composed_spinners(all.take(0), before.len()) =~= spun);
    for entry in it: made.into_iter()
        invariant
            it.seq() == source,
            source.len() == all.len(),
            forall|a: int| 0 <= a < all.len() ==> is_drawn(all[a], #[trigger] source[a]),
            forall|a: int, b: int|
                0 <= a < all.len() && 0 <= b < all[a].spinners.len() ==> (
                #[trigger] all[a].spinners[b]).line == 0,
            it.index() <= all.len(),
            lines@.len() == before.len() + it.index(),
            line_outs(lines@) == line_outs(before) + composed_lines(all.take(it.index() as int)),
            spinner_lines@ == spun + composed_spinners(all.take(it.index() as int), before.len()),
    {
        let ghost i = it.index() as int;
        let ghost so_far = lines@;
        let (line, spinners) = entry;
        let at = lines.len();
        proof {
            assert(source[i] == (line, spinners));
            assert(all.take(i + 1).drop_last() =~= all.take(i));
            assert forall|b: int| 0 <= b < spinners@.len() implies (
            #[trigger] spinners@[b]).line + at <= usize::MAX by {
                assert(all[i].spinners[b].line == 0);
            }
        }
        let mut moved = move_down(spinners, at);
        spinner_lines.append(&mut moved);
        lines.push(line);
        proof {
            assert(line_outs(lines@) =~= line_outs(so_far).push(line@));
            assert(composed_lines(all.take(i + 1)) =~= composed_lines(all.take(i)).push(line@));
            assert(line_outs(lines@) =~= line_outs(before) + composed_lines(all.take(i + 1)));
            assert(spinner_lines@ =~= spun + composed_spinners(all.take(i + 1), before.len()));
        }
    }
    assert(all.take(all.len() as int) =~= all);
}

/// A composed line numbers its spinners as its only line.
proof fn spinners_are_on_line_zero(
    spans: Seq<SpanView>,
    faces: Seq<Face>,
    marks: Seq<Mark>,
)
    ensures
        composed(spans, faces, marks) matches Some(made) ==> forall|j: int|
            0 <= j < made.spinners.len() ==> (#[trigger] made.spinners[j]).line == 0,
    decreases spans.len(),
{
    if spans.len() > 0 {
        spinners_are_on_line_zero(spans.drop_last(), faces.drop_last(), marks);
    }
}

/// Once refused, a block stays refused.
pub proof fn refused_stays_refused(
    objects: Seq<RenderObject>,
    faces: Seq<Faces>,
    tool: Option<ToolLines>,
    instructions: Option<ToolLines>,
    k: int,
)
    requires
        faces.len() == objects.len(),
        0 <= k <= objects.len(),
        laid_out(objects.take(k), faces.take(k), tool, instructions) is None,
    ensures
        laid_out(objects, faces, tool, instructions) is None,
    decreases objects.len(),
{
    if k == objects.len() {
        assert(objects.take(k) =~= objects);
        assert(faces.take(k) =~= faces);
    } else {
        assert(objects.drop_last().take(k) =~= objects.take(k));
        assert(faces.drop_last().take(k) =~= faces.take(k));
        refused_stays_refused(objects.drop_last(), faces.drop_last(), tool, instructions, k);
    }
}

/// Lays the objects out, `None` when one of them is refused. `faces` says how
/// the theme draws the spans and decorations of each.
pub fn lay_out(
    objects: &Vec<RenderObject>,
    faces: &Vec<Faces>,
    tool_lines: Option<ToolLines>,
    instruction_lines: Option<ToolLines>,
) -> (rendered: Option<Rendered>)
    requires
        all_faces_fit(objects@, faces@),
        bodies_can_move(objects@, tool_lines, instruction_lines),
    ensures
        match rendered {
            Some(rendered) => laid_out(
                objects@,
                faces@,
                tool_lines,
                instruction_lines,
            ) matches Some(laid) && rendered@ == finished(laid),
            None => laid_out(objects@, faces@, tool_lines, instruction_lines) is None,
        },
{
    let mut lines: Vec<Line> = Vec::new();
    let mut raw: Vec<RawSpan> = Vec::new();
    let mut spinner_lines: Vec<SpinnerLine> = Vec::new();
    let mut tool = tool_lines;
    let mut instructions = instruction_lines;
    let mut body: Option<ToolBody> = None;
    let mut instructions_body: Option<ToolBody> = None;
    let mut i: usize = 0;
    proof {
        assert(objects@.take(0) =~= seq![]);
        assert(line_outs(lines@) =~= seq![]);
        assert(raw_outs(raw@) =~= seq![]);
    }
    while i < objects.len()
        invariant
            all_faces_fit(objects@, faces@),
            bodies_can_move(objects@, tool_lines, instruction_lines),
            i <= objects@.len(),
            laid_out(
                objects@.take(i as int),
                faces@.take(i as int),
                tool_lines,
                instruction_lines,
            ) == Some(
                Laid {
                    lines: line_outs(lines@),
                    raw: raw_outs(raw@),
                    spinner_lines: spinner_lines@,
                    tool_left: tool,
                    instructions_left: instructions,
                    tool: body_out(body),
                    instructions: body_out(instructions_body),
                },
            ),
        decreases objects@.len() - i,
    {
        let ghost done = objects@.take(i as int);
        proof {
            assert(objects@.take(i + 1).drop_last() =~= done);
            assert(faces@.take(i + 1).drop_last() =~= faces@.take(i as int));
            assert(objects@.take(i + 1).last() == objects@[i as int]);
            assert(faces@.take(i + 1).last() == faces@[i as int]);
            laid_out_is_as_high(done, faces@.take(i as int), tool_lines, instruction_lines);
            if laid_out(objects@.take(i + 1), faces@.take(i + 1), tool_lines, instruction_lines) is None {
                refused_stays_refused(objects@, faces@, tool_lines, instruction_lines, i + 1);
            }
        }
        match &objects[i] {
            RenderObject::Lines { lines: source, decorations } => {
                assert(faces_fit(source@, decorations@, faces@[i as int]));
                match render_lines(source, decorations, &faces[i]) {
                    Some(made) => {
                        let ghost all = drawn(source@, decorations@, faces@[i as int]);
                        proof {
                            assert forall|a: int, b: int|
                                0 <= a < all.len() && 0 <= b < all[a].spinners.len() implies (
                            #[trigger] all[a].spinners[b]).line == 0 by {
                                assert(line_composed(
                                    source@,
                                    decorations@,
                                    faces@[i as int],
                                    a,
                                ) is Some);
                                spinners_are_on_line_zero(
                                    source@[a]@,
                                    faces@[i as int].spans@[a]@,
                                    marks_of(
                                        decorations@,
                                        faces@[i as int].decorations@,
                                        a,
                                    ),
                                );
                            }
                        }
                        push_lines(&mut lines, &mut spinner_lines, made, Ghost(all));
                    },
                    None => return None,
                }
            },
            RenderObject::Raw { seq, width, height } => {
                if validate(seq.as_str()).is_err() {
                    return None;
                }
                let width = if *width <= MAX_RAW_WIDTH {
                    *width
                } else {
                    MAX_RAW_WIDTH
                };
                let height = if *height <= MAX_RAW_HEIGHT {
                    *height
                } else {
                    MAX_RAW_HEIGHT
                };
                let ghost before = raw@;
                raw.push(RawSpan { row: lines.len(), seq: seq.clone(), width, height });
                proof {
                    assert(raw_outs(raw@) =~= raw_outs(before).push(raw@.last()@));
                }
                push_placeholders(&mut lines, width, height);
            },
            RenderObject::ToolBody => match tool.take() {
                Some(taken) => {
                    let offset = lines.len();
                    let mut taken = taken;
                    let ghost whole = taken;
                    proof {
                        assert(first_tool(objects@, i as int)) by {
                            assert forall|j: int| 0 <= j < i implies !((
                            #[trigger] objects@[j]) is ToolBody) by {
                                assert(done[j] == objects@[j]);
                            }
                        }
                    }
                    let ghost before = lines@;
                    lines.append(&mut taken.lines);
                    assert(line_outs(lines@) =~= line_outs(before) + line_outs(whole.lines@));
                    body = Some(place_tool_body(taken, offset));
                },
                None => return None,
            },
            RenderObject::InstructionsBody => match instructions.take() {
                Some(taken) => {
                    let offset = lines.len();
                    let mut taken = taken;
                    let ghost whole = taken;
                    proof {
                        assert(first_instructions(objects@, i as int)) by {
                            assert forall|j: int| 0 <= j < i implies !((
                            #[trigger] objects@[j]) is InstructionsBody) by {
                                assert(done[j] == objects@[j]);
                            }
                        }
                    }
                    let ghost before = lines@;
                    lines.append(&mut taken.lines);
                    assert(line_outs(lines@) =~= line_outs(before) + line_outs(whole.lines@));
                    instructions_body = Some(place_tool_body(taken, offset));
                },
                None => return None,
            },
        }
        i += 1;
    }
    proof {
        assert(objects@.take(i as int) =~= objects@);
        assert(faces@.take(i as int) =~= faces@);
    }
    Some(Rendered { lines, raw, tool: body, instructions: instructions_body, spinner_lines })
}

} // verus!
