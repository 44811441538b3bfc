//! Which spans of a rendered block spin.

use crate::compose::{Composed, Face, SpinnerLine};
use crate::draw_laws::{a_drawn_line_shows_its_source, line_shows, spinners_of, Origin};
use crate::layout::{
    all_faces_fit, composed_spinners, finished, height, laid_out, laid_out_is_as_high,
};
use crate::layout_laws::{countable, lines_only_grow};
use crate::place::{
    drawable, drawn, faces_fit, moved_down, Decoration, Faces, RenderObject, ToolLines,
};
use crate::render_laws::{height_is_the_rows, rows_of, top_is_local, top_of};
use crate::snapshot::SnapshotLine;
use vstd::prelude::*;

verus! {

/// The spinners of a line of the block: one for every piece of the line that is
/// a spinner, with the style it names, and no other.
pub open spec fn line_spins(
    faces: Seq<Face>,
    origins: Seq<Origin>,
    spinners: Seq<SpinnerLine>,
    line: int,
) -> bool {
    &&& forall|s: int|
        0 <= s < spinners.len() && (#[trigger] spinners[s]).line == line ==> {
            &&& spinners[s].span < origins.len()
            &&& faces[origins[spinners[s].span as int].span] matches Face::Spinner {
                style,
                span: _,
            } && spinners[s].style == style
        }
    &&& forall|q: int|
        0 <= q < origins.len() && faces[(#[trigger] origins[q]).span] is Spinner ==> exists|s: int|
            0 <= s < spinners.len() && (#[trigger] spinners[s]).line == line && spinners[s].span
                == q
}

/// One spinner comes before another: on an earlier line, or earlier in the
/// same one.
pub open spec fn spins_before(a: SpinnerLine, b: SpinnerLine) -> bool {
    a.line < b.line || (a.line == b.line && a.span < b.span)
}

/// A line is one of the lines of a `Lines` object.
pub open spec fn is_own_line(
    objects: Seq<RenderObject>,
    tool: Option<ToolLines>,
    instructions: Option<ToolLines>,
    k: int,
    line: int,
) -> bool {
    let top = top_of(objects, tool, instructions, k);
    &&& 0 <= k < objects.len()
    &&& objects[k] is Lines
    &&& top <= line < top + objects[k]->lines@.len()
}

/// Some object of the renderer's own has the line.
pub open spec fn is_owned(
    objects: Seq<RenderObject>,
    tool: Option<ToolLines>,
    instructions: Option<ToolLines>,
    line: int,
) -> bool {
    exists|k: int| #[trigger] is_own_line(objects, tool, instructions, k, line)
}

/// What is known of the spinners of drawn lines: they are of those lines, and
/// in order.
spec fn spinners_in_order(spinners: Seq<SpinnerLine>, from: int, to: int) -> bool {
    &&& forall|s: int| 0 <= s < spinners.len() ==> from <= (#[trigger] spinners[s]).line < to
    &&& forall|s: int, t: int|
        0 <= s < t < spinners.len() ==> spins_before(
            #[trigger] spinners[s],
            #[trigger] spinners[t],
        )
}

spec fn each_in_order(made: Seq<Composed>) -> bool {
    forall|i: int| 0 <= i < made.len() ==> spinners_in_order((#[trigger] made[i]).spinners, 0, 1)
}

/// A spinner of the line, wherever the line stands.
spec fn has_spinner(
    spinners: Seq<SpinnerLine>,
    line: int,
    span: usize,
    style: Option<String>,
) -> bool {
    exists|s: int|
        0 <= s < spinners.len() && (#[trigger] spinners[s]).line == line && spinners[s].span == span
            && spinners[s].style == style
}

proof fn composed_spinners_stand(
    made: Seq<Composed>,
    base: nat,
    i: int,
    span: usize,
    style: Option<String>,
)
    requires
        base + made.len() <= usize::MAX,
        each_in_order(made),
    ensures
        spinners_in_order(composed_spinners(made, base), base as int, (base + made.len()) as int),
        0 <= i < made.len() ==> (has_spinner(
            composed_spinners(made, base),
            base + i,
            span,
            style,
        ) <==> has_spinner(made[i].spinners, 0, span, style)),
    decreases made.len(),
{
    if made.len() > 0 {
        let rest = made.drop_last();
        assert forall|j: int| 0 <= j < rest.len() implies spinners_in_order(
            (#[trigger] rest[j]).spinners,
            0,
            1,
        ) by {
            assert(rest[j] == made[j]);
        }
        composed_spinners_stand(rest, base, i, span, style);
        let before = composed_spinners(rest, base);
        let last = made.len() - 1;
        let own = made.last().spinners;
        assert(made[last].spinners == own);
        assert(spinners_in_order(own, 0, 1));
        let here = base + rest.len();
        let more = moved_down(own, here);
        let all = composed_spinners(made, base);
        assert(all == before + more);
        assert forall|s: int| 0 <= s < more.len() implies (#[trigger] more[s]).line == here
            && more[s].span == own[s].span && more[s].style == own[s].style by {
            assert(own[s].line == 0);
        }
        assert forall|s: int| 0 <= s < all.len() implies base <= (#[trigger] all[s]).line < base
            + made.len() by {
            if s < before.len() {
                assert(all[s] == before[s]);
            } else {
                assert(all[s] == more[s - before.len()]);
            }
        }
        assert forall|s: int, t: int| 0 <= s < t < all.len() implies spins_before(
            #[trigger] all[s],
            #[trigger] all[t],
        ) by {
            if t < before.len() {
                assert(all[s] == before[s] && all[t] == before[t]);
            } else if s < before.len() {
                assert(all[s] == before[s] && all[t] == more[t - before.len()]);
            } else {
                assert(all[s] == more[s - before.len()] && all[t] == more[t - before.len()]);
                assert(spins_before(own[s - before.len()], own[t - before.len()]));
            }
        }
        if 0 <= i < made.len() {
            if has_spinner(all, base + i, span, style) {
                let s = choose|s: int|
                    0 <= s < all.len() && (#[trigger] all[s]).line == base + i && all[s].span
                        == span && all[s].style == style;
                if s < before.len() {
                    assert(all[s] == before[s]);
                    assert(has_spinner(before, base + i, span, style));
                } else {
                    assert(all[s] == more[s - before.len()]);
                    assert(own[s - before.len()].line == 0);
                }
            }
            if has_spinner(made[i].spinners, 0, span, style) {
                if i < last {
                    assert(has_spinner(before, base + i, span, style));
                    let s = choose|s: int|
                        0 <= s < before.len() && (#[trigger] before[s]).line == base + i
                            && before[s].span == span && before[s].style == style;
                    assert(all[s] == before[s]);
                } else {
                    let s = choose|s: int|
                        0 <= s < own.len() && (#[trigger] own[s]).line == 0 && own[s].span == span
                            && own[s].style == style;
                    assert(all[before.len() + s] == more[s]);
                }
            }
        }
    }
}

/// The lines of a run that was drawn have their spinners in order.
proof fn drawn_lines_spin_in_order(
    source: Seq<SnapshotLine>,
    decorations: Seq<Decoration>,
    faces: Faces,
)
    requires
        faces_fit(source, decorations, faces),
        drawable(source, decorations, faces),
        forall|i: int|
            0 <= i < source.len() ==> (#[trigger] drawn(
                source,
                decorations,
                faces,
            )[i]).spans.len() <= usize::MAX,
    ensures
        each_in_order(drawn(source, decorations, faces)),
{
    reveal(spinners_of);
    let made = drawn(source, decorations, faces);
    assert forall|i: int| 0 <= i < made.len() implies spinners_in_order(
        (#[trigger] made[i]).spinners,
        0,
        1,
    ) by {
        a_drawn_line_shows_its_source(source, decorations, faces, i);
    }
}

/// The spinners of the block are in order, each of a line of an object of the
/// renderer's own; those of native bodies are with their bodies.
pub proof fn spinners_are_of_the_renderers_lines(
    objects: Seq<RenderObject>,
    faces: Seq<Faces>,
    tool: Option<ToolLines>,
    instructions: Option<ToolLines>,
)
    requires
        all_faces_fit(objects, faces),
        laid_out(objects, faces, tool, instructions) matches Some(laid) && countable(laid.lines),
    ensures
        ({
            let spinners = finished(
                laid_out(objects, faces, tool, instructions)->Some_0,
            ).spinner_lines;
            &&& forall|s: int|
                0 <= s < spinners.len() ==> is_owned(
                    objects,
                    tool,
                    instructions,
                    (#[trigger] spinners[s]).line as int,
                )
            &&& forall|s: int, t: int|
                0 <= s < t < spinners.len() ==> spins_before(
                    #[trigger] spinners[s],
                    #[trigger] spinners[t],
                )
        }),
    decreases objects.len(),
{
    if objects.len() > 0 {
        block_before_stands(objects, faces, tool, instructions);
        let rest = objects.drop_last();
        let fewer = faces.drop_last();
        let laid = laid_out(objects, faces, tool, instructions)->Some_0;
        let before = laid_out(rest, fewer, tool, instructions)->Some_0;
        let last = objects.len() - 1;
        spinners_are_of_the_renderers_lines(rest, fewer, tool, instructions);
        laid_out_is_as_high(rest, fewer, tool, instructions);
        height_is_the_rows(objects, tool, instructions, last);
        assert(objects.take(last) =~= rest);
        let top = top_of(objects, tool, instructions, last);
        assert(before.lines.len() == top);
        tops_grow(objects, tool, instructions, last);
        let had = before.spinner_lines;
        let all = laid.spinner_lines;
        assert(had == finished(before).spinner_lines);
        assert forall|s: int| 0 <= s < had.len() implies is_owned(
            objects,
            tool,
            instructions,
            (#[trigger] had[s]).line as int,
        ) && had[s].line < top by {
            assert(is_owned(rest, tool, instructions, had[s].line as int));
            own_lines_are_above(objects, tool, instructions, had[s].line as int);
        }
        let more = match objects[last] {
            RenderObject::Lines { lines, decorations } => composed_spinners(
                drawn(lines@, decorations@, faces[last]),
                top,
            ),
            _ => seq![],
        };
        assert(all =~= had + more);
        if let RenderObject::Lines { lines, decorations } = objects[last] {
            last_lines_are_counted(objects, faces, tool, instructions);
            let made = drawn(lines@, decorations@, faces[last]);
            drawn_lines_spin_in_order(lines@, decorations@, faces[last]);
            composed_spinners_stand(made, top, 0, 0, None);
            assert forall|s: int| 0 <= s < more.len() implies is_own_line(
                objects,
                tool,
                instructions,
                last,
                (#[trigger] more[s]).line as int,
            ) by {}
        }
        assert forall|s: int| 0 <= s < all.len() implies is_owned(
            objects,
            tool,
            instructions,
            (#[trigger] all[s]).line as int,
        ) by {
            if s < had.len() {
                assert(all[s] == had[s]);
            } else {
                assert(all[s] == more[s - had.len()]);
                assert(is_own_line(objects, tool, instructions, last, all[s].line as int));
            }
        }
        assert forall|s: int, t: int| 0 <= s < t < all.len() implies spins_before(
            #[trigger] all[s],
            #[trigger] all[t],
        ) by {
            if t < had.len() {
                assert(all[s] == had[s] && all[t] == had[t]);
            } else if s < had.len() {
                assert(all[s] == had[s] && all[t] == more[t - had.len()]);
            } else {
                assert(all[s] == more[s - had.len()] && all[t] == more[t - had.len()]);
            }
        }
    }
}

proof fn tops_grow(
    objects: Seq<RenderObject>,
    tool: Option<ToolLines>,
    instructions: Option<ToolLines>,
    n: int,
)
    requires
        0 <= n <= objects.len(),
    ensures
        forall|k: int|
            0 <= k < n ==> (#[trigger] top_of(objects, tool, instructions, k)) + rows_of(
                objects[k],
                tool,
                instructions,
            ) <= top_of(objects, tool, instructions, n),
    decreases n,
{
    if n > 0 {
        tops_grow(objects, tool, instructions, n - 1);
    }
}

/// A line of an earlier object is one of the block's, above the last object.
proof fn own_lines_are_above(
    objects: Seq<RenderObject>,
    tool: Option<ToolLines>,
    instructions: Option<ToolLines>,
    line: int,
)
    requires
        objects.len() > 0,
        is_owned(objects.drop_last(), tool, instructions, line),
    ensures
        is_owned(objects, tool, instructions, line),
        line < top_of(objects, tool, instructions, objects.len() - 1),
{
    let rest = objects.drop_last();
    let last = objects.len() - 1;
    let k = choose|k: int| #[trigger] is_own_line(rest, tool, instructions, k, line);
    top_is_local(objects, tool, instructions, k);
    tops_grow(objects, tool, instructions, last);
    assert(rest[k] == objects[k]);
    assert(top_of(objects, tool, instructions, k) + rows_of(objects[k], tool, instructions)
        <= top_of(objects, tool, instructions, last));
    assert(is_own_line(objects, tool, instructions, k, line));
}

/// Without its last object the block still stands.
proof fn block_before_stands(
    objects: Seq<RenderObject>,
    faces: Seq<Faces>,
    tool: Option<ToolLines>,
    instructions: Option<ToolLines>,
)
    requires
        objects.len() > 0,
        all_faces_fit(objects, faces),
        laid_out(objects, faces, tool, instructions) matches Some(laid) && countable(laid.lines),
    ensures
        all_faces_fit(objects.drop_last(), faces.drop_last()),
        laid_out(objects.drop_last(), faces.drop_last(), tool, instructions) matches Some(laid)
            && countable(laid.lines),
{
    let rest = objects.drop_last();
    let fewer = faces.drop_last();
    assert forall|j: int| 0 <= j < rest.len() && (#[trigger] rest[j]) is Lines implies faces_fit(
        rest[j]->lines@,
        rest[j]->decorations@,
        fewer[j],
    ) by {
        assert(rest[j] == objects[j]);
    }
    let laid = laid_out(objects, faces, tool, instructions)->Some_0;
    let before = laid_out(rest, fewer, tool, instructions)->Some_0;
    lines_only_grow(before, objects.last(), faces.last());
    assert forall|i: int| 0 <= i < before.lines.len() implies (
    #[trigger] before.lines[i]).spans.len() <= usize::MAX by {
        assert(laid.lines[i] == before.lines[i]);
    }
}

/// The lines of the last object can be counted.
proof fn last_lines_are_counted(
    objects: Seq<RenderObject>,
    faces: Seq<Faces>,
    tool: Option<ToolLines>,
    instructions: Option<ToolLines>,
)
    requires
        objects.len() > 0,
        objects.last() is Lines,
        all_faces_fit(objects, faces),
        laid_out(objects, faces, tool, instructions) matches Some(laid) && countable(laid.lines),
    ensures
        ({
            let lines = objects.last()->lines@;
            let decorations = objects.last()->decorations@;
            let made = drawn(lines, decorations, faces.last());
            let base = height(objects.drop_last(), tool, instructions);
            &&& faces_fit(lines, decorations, faces.last())
            &&& drawable(lines, decorations, faces.last())
            &&& base + made.len() <= usize::MAX
            &&& forall|i: int|
                0 <= i < lines.len() ==> (#[trigger] made[i]).spans.len() <= usize::MAX
        }),
{
    let last = objects.len() - 1;
    assert(objects[last] is Lines);
    laid_out_is_as_high(objects.drop_last(), faces.drop_last(), tool, instructions);
    let before = laid_out(objects.drop_last(), faces.drop_last(), tool, instructions)->Some_0;
    let laid = laid_out(objects, faces, tool, instructions)->Some_0;
    let lines = objects.last()->lines@;
    let made = drawn(lines, objects.last()->decorations@, faces.last());
    assert forall|i: int| 0 <= i < lines.len() implies (#[trigger] made[i]).spans.len()
        <= usize::MAX by {
        assert(laid.lines[before.lines.len() + i].spans == made[i].spans);
    }
}

/// Every spinner of every line is one of the block's, on the line that stands
/// for it, and the block has no other on that line.
pub proof fn every_spinner_of_a_line_spins(
    objects: Seq<RenderObject>,
    faces: Seq<Faces>,
    tool: Option<ToolLines>,
    instructions: Option<ToolLines>,
    k: int,
    i: int,
)
    requires
        all_faces_fit(objects, faces),
        laid_out(objects, faces, tool, instructions) matches Some(laid) && countable(laid.lines),
        0 <= k < objects.len(),
        objects[k] is Lines,
        0 <= i < objects[k]->lines@.len(),
    ensures
        ({
            let made = finished(laid_out(objects, faces, tool, instructions)->Some_0);
            let lines = objects[k]->lines@;
            let decorations = objects[k]->decorations@;
            let line = top_of(objects, tool, instructions, k) + i;
            exists|origins: Seq<Origin>| #[trigger]
                line_shows(
                    lines[i]@,
                    faces[k].spans@[i]@,
                    decorations,
                    faces[k].decorations@,
                    i,
                    made.lines[line].spans,
                    origins,
                ) && line_spins(faces[k].spans@[i]@, origins, made.spinner_lines, line)
        }),
    decreases objects.len(),
{
    block_before_stands(objects, faces, tool, instructions);
    let rest = objects.drop_last();
    let fewer = faces.drop_last();
    let laid = laid_out(objects, faces, tool, instructions)->Some_0;
    let before = laid_out(rest, fewer, tool, instructions)->Some_0;
    let last = objects.len() - 1;
    let line = top_of(objects, tool, instructions, k) + i;
    laid_out_is_as_high(rest, fewer, tool, instructions);
    height_is_the_rows(objects, tool, instructions, last);
    assert(objects.take(last) =~= rest);
    let top = top_of(objects, tool, instructions, last);
    assert(before.lines.len() == top);
    tops_grow(objects, tool, instructions, last);
    let had = before.spinner_lines;
    let all = laid.spinner_lines;
    let lines = objects[k]->lines@;
    let decorations = objects[k]->decorations@;
    let fs = faces[k].spans@[i]@;
    let more = match objects[last] {
        RenderObject::Lines { lines, decorations } => composed_spinners(
            drawn(lines@, decorations@, faces[last]),
            top,
        ),
        _ => seq![],
    };
    assert(all =~= had + more);
    spinners_are_of_the_renderers_lines(rest, fewer, tool, instructions);
    assert(had == finished(before).spinner_lines);
    assert forall|s: int| 0 <= s < had.len() implies (#[trigger] had[s]).line < top by {
        assert(is_owned(rest, tool, instructions, had[s].line as int));
        own_lines_are_above(objects, tool, instructions, had[s].line as int);
    }
    if objects[last] is Lines {
        last_lines_are_counted(objects, faces, tool, instructions);
        let own = objects[last]->lines@;
        let marks = objects[last]->decorations@;
        drawn_lines_spin_in_order(own, marks, faces[last]);
        composed_spinners_stand(drawn(own, marks, faces[last]), top, 0, 0, None);
    }
    assert forall|s: int| 0 <= s < more.len() implies top <= (#[trigger] more[s]).line by {}
    if k < last {
        assert(rest[k] == objects[k]);
        every_spinner_of_a_line_spins(rest, fewer, tool, instructions, k, i);
        top_is_local(objects, tool, instructions, k);
        lines_only_grow(before, objects.last(), faces.last());
        assert(top_of(objects, tool, instructions, k) + rows_of(objects[k], tool, instructions)
            <= top);
        assert(finished(before).lines[line] == finished(laid).lines[line]);
        let origins = choose|origins: Seq<Origin>| #[trigger]
            line_shows(
                lines[i]@,
                fs,
                decorations,
                faces[k].decorations@,
                i,
                finished(before).lines[line].spans,
                origins,
            ) && line_spins(fs, origins, had, line);
        assert forall|s: int| 0 <= s < all.len() && (#[trigger] all[s]).line == line implies {
            &&& all[s].span < origins.len()
            &&& fs[origins[all[s].span as int].span] matches Face::Spinner { style, span: _ }
                && all[s].style == style
        } by {
            if s < had.len() {
                assert(all[s] == had[s]);
            } else {
                assert(all[s] == more[s - had.len()]);
            }
        }
        assert forall|q: int| 0 <= q < origins.len()
            && fs[(#[trigger] origins[q]).span] is Spinner implies exists|s: int|
            0 <= s < all.len() && (#[trigger] all[s]).line == line && all[s].span == q by {
            let s = choose|s: int|
                0 <= s < had.len() && (#[trigger] had[s]).line == line && had[s].span == q;
            assert(all[s] == had[s]);
        }
        assert(line_spins(fs, origins, all, line));
    } else {
        let made = drawn(lines, decorations, faces[k]);
        a_drawn_line_shows_its_source(lines, decorations, faces[k], i);
        let own = made[i].spinners;
        assert(finished(laid).lines[line].spans == made[i].spans);
        assert(made[i].spans.len() <= usize::MAX);
        let origins = choose|origins: Seq<Origin>| #[trigger]
            line_shows(
                lines[i]@,
                fs,
                decorations,
                faces[k].decorations@,
                i,
                made[i].spans,
                origins,
            ) && (made[i].spans.len() <= usize::MAX ==> spinners_of(fs, origins, own, 0));
        own_spinners_spin(fs, origins, made, i, top, had);
    }
}

proof fn own_spinners_spin(
    faces: Seq<Face>,
    origins: Seq<Origin>,
    made: Seq<Composed>,
    i: int,
    top: nat,
    had: Seq<SpinnerLine>,
)
    requires
        0 <= i < made.len(),
        top + made.len() <= usize::MAX,
        each_in_order(made),
        spinners_of(faces, origins, made[i].spinners, 0),
        origins.len() <= usize::MAX,
        forall|s: int| 0 <= s < had.len() ==> (#[trigger] had[s]).line < top,
    ensures
        line_spins(faces, origins, had + composed_spinners(made, top), top + i),
{
    reveal(spinners_of);
    let own = made[i].spinners;
    let more = composed_spinners(made, top);
    let all = had + more;
    let line = top + i;
    assert forall|s: int| 0 <= s < all.len() && (#[trigger] all[s]).line == line implies {
        &&& all[s].span < origins.len()
        &&& faces[origins[all[s].span as int].span] matches Face::Spinner { style, span: _ }
            && all[s].style == style
    } by {
        if s < had.len() {
            assert(all[s] == had[s]);
        } else {
            let spinner = all[s];
            assert(all[s] == more[s - had.len()]);
            assert(has_spinner(more, line, spinner.span, spinner.style));
            composed_spinners_stand(made, top, i, spinner.span, spinner.style);
            let t = choose|t: int|
                0 <= t < own.len() && (#[trigger] own[t]).line == 0 && own[t].span == spinner.span
                    && own[t].style == spinner.style;
            assert(own[t].span == spinner.span);
        }
    }
    assert forall|q: int| 0 <= q < origins.len()
        && faces[(#[trigger] origins[q]).span] is Spinner implies exists|s: int|
        0 <= s < all.len() && (#[trigger] all[s]).line == line && all[s].span == q by {
        let t = choose|t: int| 0 <= t < own.len() && (#[trigger] own[t]).span == q;
        let span = own[t].span;
        let style = own[t].style;
        assert(own[t].line == 0);
        assert(has_spinner(own, 0, span, style));
        composed_spinners_stand(made, top, i, span, style);
        let s = choose|s: int|
            0 <= s < more.len() && (#[trigger] more[s]).line == line && more[s].span == span
                && more[s].style == style;
        assert(all[had.len() + s] == more[s]);
    }
}

} // verus!
