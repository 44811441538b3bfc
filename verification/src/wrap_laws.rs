//! What wrapping promises of every input.

use crate::cells::white_space;
use crate::snapshot::{spans_text, SpanStyle, SpanView};
use crate::wrap::{
    all_glyphs, append_glyph, append_run, append_word, broken, fill_runs, finished, lines_within,
    merged, run_len, run_len_bounds, split_lines, styled, total_width, within, wrapped, wrapped_all,
    wrapped_spans, wrapped_within, Fill, Glyph,
};
use vstd::prelude::*;

verus! {

/// The glyphs of a list of lines, one line after the other.
pub open spec fn joined(lines: Seq<Seq<Glyph>>) -> Seq<Glyph>
    decreases lines.len(),
{
    if lines.len() == 0 {
        Seq::empty()
    } else {
        joined(lines.drop_last()) + lines.last()
    }
}

/// The glyphs that are neither whitespace nor a line break.
pub open spec fn inked(glyphs: Seq<Glyph>) -> Seq<Glyph>
    decreases glyphs.len(),
{
    if glyphs.len() == 0 {
        Seq::empty()
    } else if glyphs.last().space || glyphs.last().ch == '\n' {
        inked(glyphs.drop_last())
    } else {
        inked(glyphs.drop_last()).push(glyphs.last())
    }
}

proof fn inked_add(a: Seq<Glyph>, b: Seq<Glyph>)
    ensures
        inked(a + b) == inked(a) + inked(b),
    decreases b.len(),
{
    if b.len() == 0 {
        assert(a + b =~= a);
        assert(inked(a) + inked(b) =~= inked(a));
    } else {
        inked_add(a, b.drop_last());
        assert((a + b).drop_last() =~= a + b.drop_last());
        assert((a + b).last() == b.last());
        assert(inked(a + b) =~= inked(a) + inked(b));
    }
}

proof fn inked_blank(run: Seq<Glyph>)
    requires
        forall|i: int| 0 <= i < run.len() ==> (#[trigger] run[i]).space,
    ensures
        inked(run) == Seq::<Glyph>::empty(),
    decreases run.len(),
{
    if run.len() > 0 {
        inked_blank(run.drop_last());
        assert(run[run.len() - 1].space);
    }
}

/// Everything a fill holds.
spec fn held(fill: Fill) -> Seq<Glyph> {
    joined(fill.lines) + fill.current
}

proof fn held_broken(fill: Fill)
    ensures
        held(broken(fill)) == held(fill),
{
    assert(broken(fill).lines.drop_last() =~= fill.lines);
    assert(held(broken(fill)) =~= held(fill));
}

proof fn held_append_run(fill: Fill, run: Seq<Glyph>, max: nat)
    ensures
        held(append_run(fill, run, max)) == held(fill) + run,
    decreases run.len(),
{
    if run.len() == 0 {
        assert(held(fill) + run =~= held(fill));
    } else {
        held_append_run(fill, run.drop_last(), max);
        let before = append_run(fill, run.drop_last(), max);
        held_broken(before);
        assert(held(append_glyph(before, run.last(), max)) =~= held(before).push(run.last()));
        assert((held(fill) + run.drop_last()).push(run.last()) =~= held(fill) + run);
    }
}

proof fn held_fill_runs(fill: Fill, pending: Seq<Glyph>, rest: Seq<Glyph>, max: nat)
    requires
        inked(pending) == Seq::<Glyph>::empty(),
    ensures
        inked(held(fill_runs(fill, pending, rest, max))) == inked(held(fill)) + inked(rest),
    decreases rest.len(),
{
    if rest.len() == 0 {
        assert(inked(held(fill)) + inked(rest) =~= inked(held(fill)));
    } else {
        run_len_bounds(rest);
        let run = rest.take(run_len(rest) as int);
        let tail = rest.skip(run_len(rest) as int);
        assert(rest =~= run + tail);
        inked_add(run, tail);
        inked_add(held(fill), run);
        if !rest[0].space {
            held_broken(fill);
            held_append_run(broken(fill), run, max);
            held_append_run(fill, run, max);
            held_append_run(fill, pending, max);
            held_append_run(append_run(fill, pending, max), run, max);
            inked_add(held(fill), pending);
            assert(inked(held(fill)) + Seq::<Glyph>::empty() =~= inked(held(fill)));
            inked_add(held(fill) + pending, run);
            let next = append_word(fill, pending, run, max);
            assert(inked(held(next)) == inked(held(fill)) + inked(run));
            held_fill_runs(next, Seq::empty(), tail, max);
        } else if fill.current.len() == 0 || tail.len() == 0 {
            held_append_run(fill, run, max);
            held_fill_runs(append_run(fill, run, max), pending, tail, max);
        } else {
            assert forall|i: int| 0 <= i < run.len() implies (#[trigger] run[i]).space by {
                assert(run[i] == rest[i]);
            }
            inked_blank(run);
            held_fill_runs(fill, run, tail, max);
            assert(Seq::<Glyph>::empty() + inked(tail) =~= inked(tail));
        }
        assert(inked(held(fill)) + (inked(run) + inked(tail)) =~= (inked(held(fill)) + inked(run))
            + inked(tail));
    }
}

proof fn joined_finished(fill: Fill)
    ensures
        joined(finished(fill)) == held(fill),
{
    if fill.current.len() > 0 || fill.lines.len() == 0 {
        assert(finished(fill).drop_last() =~= fill.lines);
    } else {
        assert(held(fill) =~= joined(fill.lines));
    }
}

/// No text is lost: the lines of a wrapped paragraph hold its
/// non-whitespace glyphs, all of them and in order. What wrapping drops is
/// whitespace.
pub proof fn wrapping_keeps_the_words(glyphs: Seq<Glyph>, max: nat)
    ensures
        inked(joined(wrapped(glyphs, max))) == inked(glyphs),
{
    let start = Fill { lines: Seq::empty(), current: Seq::empty() };
    held_fill_runs(start, Seq::empty(), glyphs, max);
    joined_finished(fill_runs(start, Seq::empty(), glyphs, max));
    assert(held(start) =~= Seq::<Glyph>::empty());
    assert(Seq::<Glyph>::empty() + inked(glyphs) =~= inked(glyphs));
}

/// How many glyphs of a line occupy a cell.
pub open spec fn wide_count(line: Seq<Glyph>) -> nat
    decreases line.len(),
{
    if line.len() == 0 {
        0
    } else {
        wide_count(line.drop_last()) + if line.last().width > 0 {
            1nat
        } else {
            0nat
        }
    }
}

/// A line no wider than `max`, or one whose only visible glyph is wider than
/// `max` by itself.
pub open spec fn fits(line: Seq<Glyph>, max: nat) -> bool {
    total_width(line) <= max || wide_count(line) == 1
}

proof fn no_cells_no_count(line: Seq<Glyph>)
    ensures
        total_width(line) == 0 ==> wide_count(line) == 0,
    decreases line.len(),
{
    if line.len() > 0 {
        no_cells_no_count(line.drop_last());
    }
}

spec fn all_fit(fill: Fill, max: nat) -> bool {
    &&& forall|i: int| 0 <= i < fill.lines.len() ==> fits(#[trigger] fill.lines[i], max)
    &&& fits(fill.current, max)
}

proof fn append_run_fits(fill: Fill, run: Seq<Glyph>, max: nat)
    requires
        all_fit(fill, max),
    ensures
        all_fit(append_run(fill, run, max), max),
    decreases run.len(),
{
    if run.len() > 0 {
        append_run_fits(fill, run.drop_last(), max);
        let before = append_run(fill, run.drop_last(), max);
        let after = append_run(fill, run, max);
        no_cells_no_count(before.current);
        let open = after.current.drop_last();
        if total_width(before.current) > 0 && total_width(before.current) + run.last().width
            > max {
            assert(open =~= Seq::<Glyph>::empty());
        } else {
            assert(open =~= before.current);
        }
        assert(after.current.last() == run.last());
        assert(total_width(after.current) == total_width(open) + run.last().width);
        assert(wide_count(after.current) <= wide_count(open) + 1);
        no_cells_no_count(open);
        no_cells_no_count(after.current);
        assert(fits(after.current, max));
        assert forall|i: int| 0 <= i < after.lines.len() implies fits(
            #[trigger] after.lines[i],
            max,
        ) by {
            if i < before.lines.len() {
                assert(after.lines[i] == before.lines[i]);
            } else {
                assert(after.lines[i] == before.current);
            }
        }
    }
}

proof fn fill_runs_fits(fill: Fill, pending: Seq<Glyph>, rest: Seq<Glyph>, max: nat)
    requires
        all_fit(fill, max),
    ensures
        all_fit(fill_runs(fill, pending, rest, max), max),
    decreases rest.len(),
{
    if rest.len() > 0 {
        run_len_bounds(rest);
        let run = rest.take(run_len(rest) as int);
        let tail = rest.skip(run_len(rest) as int);
        if !rest[0].space {
            assert(all_fit(broken(fill), max));
            append_run_fits(broken(fill), run, max);
            append_run_fits(fill, pending, max);
            append_run_fits(append_run(fill, pending, max), run, max);
            append_run_fits(fill, run, max);
            fill_runs_fits(append_word(fill, pending, run, max), Seq::empty(), tail, max);
        } else if fill.current.len() == 0 || tail.len() == 0 {
            append_run_fits(fill, run, max);
            fill_runs_fits(append_run(fill, run, max), pending, tail, max);
        } else {
            fill_runs_fits(fill, run, tail, max);
        }
    }
}

/// No line is wider than `max`, save one whose single visible glyph is wider
/// than `max` by itself.
pub proof fn wrapped_lines_fit(glyphs: Seq<Glyph>, max: nat, i: int)
    requires
        0 <= i < wrapped(glyphs, max).len(),
    ensures
        fits(wrapped(glyphs, max)[i], max),
{
    fill_runs_fits(
        Fill { lines: Seq::empty(), current: Seq::empty() },
        Seq::empty(),
        glyphs,
        max,
    );
}

pub(crate) proof fn total_width_add(a: Seq<Glyph>, b: Seq<Glyph>)
    ensures
        total_width(a + b) == total_width(a) + total_width(b),
    decreases b.len(),
{
    if b.len() == 0 {
        assert(a + b =~= a);
    } else {
        total_width_add(a, b.drop_last());
        assert((a + b).drop_last() =~= a + b.drop_last());
    }
}

pub(crate) proof fn append_run_unbroken(fill: Fill, run: Seq<Glyph>, max: nat)
    requires
        total_width(fill.current) + total_width(run) <= max,
    ensures
        append_run(fill, run, max) == (Fill { current: fill.current + run, ..fill }),
    decreases run.len(),
{
    if run.len() == 0 {
        assert(fill.current + run =~= fill.current);
    } else {
        append_run_unbroken(fill, run.drop_last(), max);
        total_width_add(fill.current, run.drop_last());
        assert((fill.current + run.drop_last()).push(run.last()) =~= fill.current + run);
    }
}

proof fn fill_runs_unbroken(fill: Fill, pending: Seq<Glyph>, rest: Seq<Glyph>, max: nat)
    requires
        total_width(fill.current) + total_width(pending) + total_width(rest) <= max,
        pending.len() > 0 ==> rest.len() > 0 && !rest[0].space && fill.current.len() > 0,
    ensures
        fill_runs(fill, pending, rest, max) == (Fill {
            current: fill.current + pending + rest,
            ..fill
        }),
    decreases rest.len(),
{
    if rest.len() == 0 {
        assert(fill.current + pending + rest =~= fill.current);
    } else {
        run_len_bounds(rest);
        let run = rest.take(run_len(rest) as int);
        let tail = rest.skip(run_len(rest) as int);
        assert(rest =~= run + tail);
        total_width_add(run, tail);
        total_width_add(fill.current, pending);
        if !rest[0].space {
            let next = append_word(fill, pending, run, max);
            if fill.current.len() > 0 {
                append_run_unbroken(fill, pending, max);
                append_run_unbroken(append_run(fill, pending, max), run, max);
            } else {
                append_run_unbroken(fill, run, max);
            }
            assert(next.current =~= fill.current + pending + run);
            total_width_add(fill.current + pending, run);
            fill_runs_unbroken(next, Seq::empty(), tail, max);
            assert(next.current + Seq::<Glyph>::empty() + tail =~= fill.current + pending + rest);
        } else if fill.current.len() == 0 || tail.len() == 0 {
            append_run_unbroken(fill, run, max);
            let next = append_run(fill, run, max);
            total_width_add(fill.current, run);
            fill_runs_unbroken(next, pending, tail, max);
            assert(next.current + pending + tail =~= fill.current + pending + rest);
        } else {
            fill_runs_unbroken(fill, run, tail, max);
            assert(fill.current + run + tail =~= fill.current + pending + rest);
        }
    }
}

/// A paragraph that fits stays as it is, spacing included.
pub proof fn a_paragraph_that_fits_is_unchanged(glyphs: Seq<Glyph>, max: nat)
    requires
        total_width(glyphs) <= max,
    ensures
        wrapped(glyphs, max) =~= seq![glyphs],
{
    let start = Fill { lines: Seq::empty(), current: Seq::empty() };
    fill_runs_unbroken(start, Seq::empty(), glyphs, max);
    assert(start.current + Seq::<Glyph>::empty() + glyphs =~= glyphs);
}

/// The text of a run of glyphs.
pub open spec fn chars(glyphs: Seq<Glyph>) -> Seq<char> {
    Seq::new(glyphs.len(), |i: int| glyphs[i].ch)
}

/// The pieces' text with a `\n` between neighbours.
pub open spec fn broken_text(pieces: Seq<Seq<Glyph>>) -> Seq<char>
    decreases pieces.len(),
{
    if pieces.len() == 0 {
        Seq::empty()
    } else if pieces.len() == 1 {
        chars(pieces[0])
    } else {
        broken_text(pieces.drop_last()).push('\n') + chars(pieces.last())
    }
}

/// Hard breaks are where the line feeds were: the paragraphs, put back
/// together with line feeds, are the text, and no paragraph holds one.
pub proof fn paragraphs_are_the_text_cut_at_line_feeds(glyphs: Seq<Glyph>)
    ensures
        broken_text(split_lines(glyphs)) == chars(glyphs),
        split_lines(glyphs).len() >= 1,
        forall|i: int, k: int|
            0 <= i < split_lines(glyphs).len() && 0 <= k < split_lines(glyphs)[i].len() ==> (
            #[trigger] split_lines(glyphs)[i][k]).ch != '\n',
    decreases glyphs.len(),
{
    if glyphs.len() == 0 {
        assert(chars(glyphs) =~= Seq::<char>::empty());
        assert(chars(split_lines(glyphs)[0]) =~= Seq::<char>::empty());
    } else {
        let short = glyphs.drop_last();
        paragraphs_are_the_text_cut_at_line_feeds(short);
        let before = split_lines(short);
        let after = split_lines(glyphs);
        let last = glyphs.last();
        assert(chars(glyphs) =~= chars(short).push(last.ch));
        if last.ch == '\n' {
            assert(after.drop_last() =~= before);
            assert(chars(after.last()) =~= Seq::<char>::empty());
            assert(broken_text(after) =~= broken_text(before).push('\n'));
        } else {
            assert(chars(after.last()) =~= chars(before.last()).push(last.ch));
            assert(after.drop_last() =~= before.drop_last());
            if before.len() == 1 {
                assert(after[0] == after.last());
                assert(before[0] == before.last());
            }
            assert(broken_text(after) =~= broken_text(before).push(last.ch));
            assert forall|i: int, k: int|
                0 <= i < after.len() && 0 <= k < after[i].len() implies (
            #[trigger] after[i][k]).ch != '\n' by {
                if i < after.len() - 1 {
                    assert(after[i][k] == before[i][k]);
                } else if k < after[i].len() - 1 {
                    assert(after[i][k] == before[i][k]);
                }
            }
        }
    }
}

/// Each character of a run of spans with its style.
pub open spec fn styled_chars(spans: Seq<SpanView>) -> Seq<(char, SpanStyle)>
    decreases spans.len(),
{
    if spans.len() == 0 {
        Seq::empty()
    } else {
        let last = spans.last();
        styled_chars(spans.drop_last()) + Seq::new(
            last.text.len(),
            |i: int| (last.text[i], last.style),
        )
    }
}

/// Each span of a wrapped line keeps its own style: the line's characters
/// are its glyphs', each with the style of the input span it came from.
pub proof fn each_wrapped_glyph_keeps_its_style(line: Seq<Glyph>, source: Seq<SpanView>)
    ensures
        styled_chars(merged(line, source)) == Seq::new(
            line.len(),
            |i: int| (line[i].ch, source[line[i].span as int].style),
        ),
        spans_text(merged(line, source)) == chars(line),
        line.len() > 0 ==> merged(line, source).len() > 0 && merged(line, source).last().style
            == source[line.last().span as int].style,
    decreases line.len(),
{
    let all = Seq::new(line.len(), |i: int| (line[i].ch, source[line[i].span as int].style));
    if line.len() == 0 {
        assert(styled_chars(merged(line, source)) =~= all);
        assert(chars(line) =~= Seq::<char>::empty());
    } else {
        let short = line.drop_last();
        each_wrapped_glyph_keeps_its_style(short, source);
        let before = merged(short, source);
        let after = merged(line, source);
        let next = line.last();
        let style = source[next.span as int].style;
        assert(chars(line) =~= chars(short).push(next.ch));
        assert(all =~= Seq::new(
            short.len(),
            |i: int| (short[i].ch, source[short[i].span as int].style),
        ).push((next.ch, style)));
        if line.len() > 1 && line[line.len() - 2].span == next.span && before.len() > 0 {
            assert(short.last() == line[line.len() - 2]);
            assert(after.drop_last() =~= before.drop_last());
            assert(styled_chars(after) =~= styled_chars(before).push((next.ch, style)));
            assert(spans_text(after) =~= spans_text(before).push(next.ch));
        } else {
            assert(after.drop_last() =~= before);
            assert(styled_chars(after) =~= styled_chars(before).push((next.ch, style)));
            assert(spans_text(after) =~= spans_text(before).push(next.ch));
        }
    }
}

/// The characters that are neither whitespace nor a line feed.
pub open spec fn ink(text: Seq<char>) -> Seq<char>
    decreases text.len(),
{
    if text.len() == 0 {
        Seq::empty()
    } else if white_space(text.last()) || text.last() == '\n' {
        ink(text.drop_last())
    } else {
        ink(text.drop_last()).push(text.last())
    }
}

/// The text of a list of styled lines, one after the other.
pub open spec fn lines_text(lines: Seq<Seq<SpanView>>) -> Seq<char>
    decreases lines.len(),
{
    if lines.len() == 0 {
        Seq::empty()
    } else {
        lines_text(lines.drop_last()) + spans_text(lines.last())
    }
}

spec fn proper() -> Set<Glyph> {
    Set::new(|g: Glyph| g.space == white_space(g.ch))
}

proof fn ink_of_chars(glyphs: Seq<Glyph>)
    requires
        within(glyphs, proper()),
    ensures
        ink(chars(glyphs)) == chars(inked(glyphs)),
    decreases glyphs.len(),
{
    if glyphs.len() > 0 {
        let short = glyphs.drop_last();
        assert(within(short, proper()));
        ink_of_chars(short);
        assert(chars(glyphs).drop_last() =~= chars(short));
        assert(proper().contains(glyphs[glyphs.len() - 1]));
        assert(chars(inked(short).push(glyphs.last())) =~= chars(inked(short)).push(
            glyphs.last().ch,
        ));
    } else {
        assert(chars(inked(glyphs)) =~= Seq::<char>::empty());
    }
}

proof fn all_glyphs_text(spans: Seq<SpanView>)
    ensures
        chars(all_glyphs(spans)) == spans_text(spans),
        within(all_glyphs(spans), proper()),
    decreases spans.len(),
{
    if spans.len() > 0 {
        all_glyphs_text(spans.drop_last());
        assert(chars(all_glyphs(spans)) =~= spans_text(spans));
    } else {
        assert(chars(all_glyphs(spans)) =~= Seq::<char>::empty());
    }
}

proof fn inked_split(glyphs: Seq<Glyph>)
    requires
        within(glyphs, proper()),
    ensures
        inked(joined(split_lines(glyphs))) == inked(glyphs),
        lines_within(split_lines(glyphs), proper()),
        split_lines(glyphs).len() >= 1,
    decreases glyphs.len(),
{
    if glyphs.len() == 0 {
        let only = split_lines(glyphs);
        assert(only.drop_last() =~= Seq::<Seq<Glyph>>::empty());
        assert(joined(only.drop_last()) =~= Seq::<Glyph>::empty());
        assert(joined(only) =~= Seq::<Glyph>::empty());
    } else {
        let short = glyphs.drop_last();
        assert(within(short, proper()));
        inked_split(short);
        let before = split_lines(short);
        let after = split_lines(glyphs);
        assert(proper().contains(glyphs[glyphs.len() - 1]));
        assert(within(before.last(), proper()));
        if glyphs.last().ch == '\n' {
            assert(after.drop_last() =~= before);
            assert(joined(after) =~= joined(before));
        } else {
            assert(after.drop_last() =~= before.drop_last());
            assert(joined(after) =~= joined(before).push(glyphs.last()));
            assert(joined(after).drop_last() =~= joined(before));
        }
    }
}

proof fn wrapped_all_inked(pieces: Seq<Seq<Glyph>>, source: Seq<SpanView>, max: nat)
    requires
        lines_within(pieces, proper()),
    ensures
        inked(joined(wrapped_all(pieces, max))) == inked(joined(pieces)),
        lines_within(wrapped_all(pieces, max), proper()),
        lines_text(styled(wrapped_all(pieces, max), source)) == chars(
            joined(wrapped_all(pieces, max)),
        ),
    decreases pieces.len(),
{
    if pieces.len() == 0 {
        assert(chars(joined(wrapped_all(pieces, max))) =~= Seq::<char>::empty());
    } else {
        let short = pieces.drop_last();
        wrapped_all_inked(short, source, max);
        let done = wrapped_all(short, max);
        let more = wrapped(pieces.last(), max);
        assert(within(pieces.last(), proper()));
        wrapped_within(pieces.last(), max, proper());
        wrapping_keeps_the_words(pieces.last(), max);
        joined_add(done, more);
        inked_add(joined(done), joined(more));
        inked_add(joined(short), pieces.last());
        lines_text_add(done, more, source);
    }
}

proof fn joined_add(a: Seq<Seq<Glyph>>, b: Seq<Seq<Glyph>>)
    ensures
        joined(a + b) == joined(a) + joined(b),
    decreases b.len(),
{
    if b.len() == 0 {
        assert(a + b =~= a);
        assert(joined(a) + joined(b) =~= joined(a));
    } else {
        joined_add(a, b.drop_last());
        assert((a + b).drop_last() =~= a + b.drop_last());
        assert(joined(a + b) =~= joined(a) + joined(b));
    }
}

proof fn lines_text_add(a: Seq<Seq<Glyph>>, b: Seq<Seq<Glyph>>, source: Seq<SpanView>)
    requires
        lines_text(styled(a, source)) == chars(joined(a)),
    ensures
        lines_text(styled(a + b, source)) == chars(joined(a + b)),
    decreases b.len(),
{
    if b.len() == 0 {
        assert(a + b =~= a);
    } else {
        lines_text_add(a, b.drop_last(), source);
        let short = a + b.drop_last();
        assert((a + b).drop_last() =~= short);
        assert(styled(a + b, source).drop_last() =~= styled(short, source));
        each_wrapped_glyph_keeps_its_style(b.last(), source);
        assert(styled(a + b, source).last() == merged(b.last(), source));
        assert(chars(joined(a + b)) =~= chars(joined(short)) + chars(b.last()));
    }
}

/// No text is lost by wrapping a styled input: the lines' non-whitespace
/// characters are the input's, all of them and in order.
pub proof fn wrapped_spans_keep_the_text(spans: Seq<SpanView>, max: nat)
    ensures
        ink(lines_text(wrapped_spans(spans, max))) == ink(spans_text(spans)),
{
    let glyphs = all_glyphs(spans);
    let pieces = split_lines(glyphs);
    all_glyphs_text(spans);
    inked_split(glyphs);
    wrapped_all_inked(pieces, spans, max);
    let lines = wrapped_all(pieces, max);
    joined_within(lines);
    ink_of_chars(joined(lines));
    ink_of_chars(glyphs);
}

proof fn joined_within(lines: Seq<Seq<Glyph>>)
    requires
        lines_within(lines, proper()),
    ensures
        within(joined(lines), proper()),
    decreases lines.len(),
{
    if lines.len() > 0 {
        joined_within(lines.drop_last());
        assert(within(lines[lines.len() - 1], proper()));
    }
}

} // verus!
