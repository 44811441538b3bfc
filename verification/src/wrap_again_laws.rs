//! What wrapping promises of a text that was wrapped before, or that is cut
//! into other spans.

use crate::snapshot::{spans_text, SpanView};
use crate::wrap::{
    all_glyphs, append_glyph, append_run, append_word, broken, fill_runs, finished, glyph,
    lines_within, merged, run_len, run_len_bounds, split_lines, styled, total_width, within, wrapped,
    wrapped_all, wrapped_some, wrapped_spans, wrapped_within, Fill, Glyph,
};
use crate::wrap_laws::{
    a_paragraph_that_fits_is_unchanged, append_run_unbroken, chars,
    each_wrapped_glyph_keeps_its_style, total_width_add,
};
use vstd::prelude::*;

verus! {

/// Glyphs without a cell of their own, then one wider than `max`. When that one
/// is part of a word, the whole line is.
pub open spec fn lone(line: Seq<Glyph>, max: nat) -> bool {
    &&& line.len() > 0
    &&& total_width(line.drop_last()) == 0
    &&& line.last().width > max
    &&& !line.last().space ==> no_space(line)
}

/// Nothing in the line is whitespace.
pub open spec fn no_space(line: Seq<Glyph>) -> bool {
    forall|k: int| 0 <= k < line.len() ==> !(#[trigger] line[k]).space
}

/// Everything in the line is whitespace.
pub open spec fn all_space(line: Seq<Glyph>) -> bool {
    forall|k: int| 0 <= k < line.len() ==> (#[trigger] line[k]).space
}

/// A line that fits, or that holds one glyph too wide for any line.
pub open spec fn tight(line: Seq<Glyph>, max: nat) -> bool {
    total_width(line) <= max || lone(line, max)
}

spec fn all_tight(fill: Fill, max: nat) -> bool {
    &&& forall|i: int| 0 <= i < fill.lines.len() ==> tight(#[trigger] fill.lines[i], max)
    &&& tight(fill.current, max)
}

proof fn broken_is_tight(fill: Fill, max: nat)
    requires
        all_tight(fill, max),
    ensures
        all_tight(broken(fill), max),
{
    let after = broken(fill);
    assert forall|i: int| 0 <= i < after.lines.len() implies tight(
        #[trigger] after.lines[i],
        max,
    ) by {
        if i < fill.lines.len() {
            assert(after.lines[i] == fill.lines[i]);
        }
    }
}

proof fn append_run_tight(fill: Fill, run: Seq<Glyph>, max: nat)
    requires
        all_tight(fill, max),
        all_space(run) || (no_space(run) && no_space(fill.current)),
    ensures
        all_tight(append_run(fill, run, max), max),
        no_space(run) && no_space(fill.current) ==> no_space(append_run(fill, run, max).current),
    decreases run.len(),
{
    if run.len() > 0 {
        let short = run.drop_last();
        assert(all_space(run) ==> all_space(short));
        assert(no_space(run) ==> no_space(short));
        append_run_tight(fill, short, max);
        let before = append_run(fill, short, max);
        let next = run.last();
        assert(next == run[run.len() - 1]);
        if total_width(before.current) > 0 && total_width(before.current) + next.width > max {
            broken_is_tight(before, max);
        }
        let after = append_run(fill, run, max);
        let open = after.current.drop_last();
        assert(after.current.last() == next);
        if total_width(before.current) > 0 && total_width(before.current) + next.width > max {
            assert(open =~= Seq::<Glyph>::empty());
            assert(after.lines == broken(before).lines);
        } else {
            assert(open =~= before.current);
            assert(after.lines == before.lines);
        }
        if no_space(run) && no_space(fill.current) {
            assert forall|k: int| 0 <= k < after.current.len() implies !(
            #[trigger] after.current[k]).space by {
                if k < open.len() {
                    assert(after.current[k] == open[k]);
                }
            }
        }
        assert(tight(after.current, max));
    }
}

proof fn run_is_one_kind(rest: Seq<Glyph>)
    requires
        rest.len() > 0,
    ensures
        rest[0].space ==> all_space(rest.take(run_len(rest) as int)),
        !rest[0].space ==> no_space(rest.take(run_len(rest) as int)),
{
    run_len_bounds(rest);
    let run = rest.take(run_len(rest) as int);
    assert forall|k: int| 0 <= k < run.len() implies (#[trigger] run[k]).space
        == rest[0].space by {
        assert(run[k] == rest[k]);
    }
}

proof fn fill_runs_tight(fill: Fill, pending: Seq<Glyph>, rest: Seq<Glyph>, max: nat)
    requires
        all_tight(fill, max),
    ensures
        all_tight(fill_runs(fill, pending, rest, max), max),
    decreases rest.len(),
{
    if rest.len() > 0 {
        run_len_bounds(rest);
        run_is_one_kind(rest);
        let run = rest.take(run_len(rest) as int);
        let tail = rest.skip(run_len(rest) as int);
        if !rest[0].space {
            let next = append_word(fill, pending, run, max);
            if fill.current.len() > 0 && total_width(fill.current) + total_width(pending)
                + total_width(run) > max {
                broken_is_tight(fill, max);
                append_run_tight(broken(fill), run, max);
            } else if fill.current.len() > 0 {
                append_run_unbroken(fill, pending, max);
                total_width_add(fill.current, pending);
                append_run_unbroken(append_run(fill, pending, max), run, max);
                total_width_add(fill.current + pending, run);
            } else {
                append_run_tight(fill, run, max);
            }
            fill_runs_tight(next, Seq::empty(), tail, max);
        } else if fill.current.len() == 0 || tail.len() == 0 {
            append_run_tight(fill, run, max);
            fill_runs_tight(append_run(fill, run, max), pending, tail, max);
        } else {
            fill_runs_tight(fill, run, tail, max);
        }
    }
}

/// Every line of a wrapped paragraph fits, or holds one glyph too wide for any
/// line after glyphs without a cell.
pub proof fn wrapped_lines_are_tight(glyphs: Seq<Glyph>, max: nat, i: int)
    requires
        0 <= i < wrapped(glyphs, max).len(),
    ensures
        tight(wrapped(glyphs, max)[i], max),
{
    let start = Fill { lines: Seq::empty(), current: Seq::empty() };
    fill_runs_tight(start, Seq::empty(), glyphs, max);
}

/// One glyph too wide, after glyphs without a cell, stays on the line it
/// starts.
proof fn append_lone_run(fill: Fill, run: Seq<Glyph>, max: nat)
    requires
        run.len() > 0,
        total_width(fill.current) == 0,
        total_width(run.drop_last()) == 0,
    ensures
        append_run(fill, run, max) == (Fill { current: fill.current + run, ..fill }),
{
    let short = run.drop_last();
    append_run_unbroken(fill, short, max);
    total_width_add(fill.current, short);
    assert((fill.current + short).push(run.last()) =~= fill.current + run);
}

proof fn fill_lone_runs(fill: Fill, pending: Seq<Glyph>, rest: Seq<Glyph>, max: nat)
    requires
        total_width(fill.current) == 0,
        total_width(pending) == 0,
        rest.len() > 0,
        total_width(rest.drop_last()) == 0,
        rest.last().space,
        pending.len() > 0 ==> !rest[0].space && fill.current.len() > 0,
    ensures
        fill_runs(fill, pending, rest, max) == (Fill {
            current: fill.current + pending + rest,
            ..fill
        }),
    decreases rest.len(),
{
    run_len_bounds(rest);
    let n = run_len(rest) as int;
    let run = rest.take(n);
    let tail = rest.skip(n);
    if tail.len() == 0 {
        assert(run =~= rest);
        assert(rest[0].space == rest[n - 1].space);
        append_lone_run(fill, run, max);
        let next = append_run(fill, run, max);
        assert(fill_runs(next, pending, tail, max) == next);
        assert(fill.current + pending + rest =~= fill.current + run);
    } else {
        assert(rest.drop_last() =~= run + tail.drop_last());
        total_width_add(run, tail.drop_last());
        assert(tail.last() == rest.last());
        if !rest[0].space {
            let next = append_word(fill, pending, run, max);
            if fill.current.len() > 0 {
                append_run_unbroken(fill, pending, max);
                total_width_add(fill.current, pending);
                append_run_unbroken(append_run(fill, pending, max), run, max);
            } else {
                append_run_unbroken(fill, run, max);
            }
            assert(next.current =~= fill.current + pending + run);
            total_width_add(fill.current, pending);
            total_width_add(fill.current + pending, run);
            fill_lone_runs(next, Seq::empty(), tail, max);
            assert(next.current + Seq::<Glyph>::empty() + tail =~= fill.current + pending + rest);
        } else if fill.current.len() == 0 {
            append_run_unbroken(fill, run, max);
            total_width_add(fill.current, run);
            let next = append_run(fill, run, max);
            fill_lone_runs(next, pending, tail, max);
            assert(next.current + pending + tail =~= fill.current + pending + rest);
        } else {
            fill_lone_runs(fill, run, tail, max);
            assert(fill.current + run + tail =~= fill.current + pending + rest);
        }
    }
}

proof fn one_run(line: Seq<Glyph>)
    requires
        line.len() > 0,
        no_space(line),
    ensures
        run_len(line) == line.len(),
{
    run_len_bounds(line);
    if run_len(line) < line.len() {
        assert(!line[run_len(line) as int].space);
    }
}

/// A line that fits, or that holds one glyph too wide for any line, stays as
/// it is.
proof fn a_tight_line_is_unchanged(line: Seq<Glyph>, max: nat)
    requires
        tight(line, max),
    ensures
        wrapped(line, max) =~= seq![line],
{
    let start = Fill { lines: Seq::empty(), current: Seq::empty() };
    if total_width(line) <= max {
        a_paragraph_that_fits_is_unchanged(line, max);
    } else if line.last().space {
        fill_lone_runs(start, Seq::empty(), line, max);
        assert(start.current + Seq::<Glyph>::empty() + line =~= line);
    } else {
        one_run(line);
        assert(!line[0].space);
        assert(line.take(line.len() as int) =~= line);
        append_lone_run(start, line, max);
        let next = append_run(start, line, max);
        assert(fill_runs(next, Seq::empty(), line.skip(line.len() as int), max) == next);
        assert(start.current + line =~= line);
    }
}

/// Wrapping again changes nothing: every line of a wrapped paragraph, wrapped
/// by itself, is that line.
pub proof fn wrapping_a_line_again(glyphs: Seq<Glyph>, max: nat, i: int)
    requires
        0 <= i < wrapped(glyphs, max).len(),
    ensures
        wrapped(wrapped(glyphs, max)[i], max) =~= seq![wrapped(glyphs, max)[i]],
{
    wrapped_lines_are_tight(glyphs, max, i);
    a_tight_line_is_unchanged(wrapped(glyphs, max)[i], max);
}

/// A glyph without the span it came from.
pub open spec fn spanless(next: Glyph) -> Glyph {
    Glyph { span: 0, ..next }
}

/// The glyphs of a line without the spans they came from.
pub open spec fn bare_line(line: Seq<Glyph>) -> Seq<Glyph> {
    Seq::new(line.len(), |i: int| spanless(line[i]))
}

/// The glyphs of all lines without the spans they came from.
pub open spec fn bare_lines(lines: Seq<Seq<Glyph>>) -> Seq<Seq<Glyph>> {
    Seq::new(lines.len(), |i: int| bare_line(lines[i]))
}

spec fn bare_fill(fill: Fill) -> Fill {
    Fill { lines: bare_lines(fill.lines), current: bare_line(fill.current) }
}

proof fn bare_width(line: Seq<Glyph>)
    ensures
        total_width(bare_line(line)) == total_width(line),
    decreases line.len(),
{
    if line.len() > 0 {
        bare_width(line.drop_last());
        assert(bare_line(line).drop_last() =~= bare_line(line.drop_last()));
    }
}

proof fn bare_broken(fill: Fill)
    ensures
        bare_fill(broken(fill)) == broken(bare_fill(fill)),
{
    assert(bare_lines(fill.lines.push(fill.current)) =~= bare_lines(fill.lines).push(
        bare_line(fill.current),
    ));
    assert(bare_line(Seq::empty()) =~= Seq::<Glyph>::empty());
}

proof fn bare_append_run(fill: Fill, run: Seq<Glyph>, max: nat)
    ensures
        append_run(bare_fill(fill), bare_line(run), max) == bare_fill(append_run(fill, run, max)),
    decreases run.len(),
{
    if run.len() > 0 {
        let short = run.drop_last();
        bare_append_run(fill, short, max);
        assert(bare_line(run).drop_last() =~= bare_line(short));
        let before = append_run(fill, short, max);
        bare_width(before.current);
        bare_broken(before);
        let open = if total_width(before.current) > 0 && total_width(before.current)
            + run.last().width > max {
            broken(before)
        } else {
            before
        };
        assert(bare_line(open.current.push(run.last())) =~= bare_line(open.current).push(
            spanless(run.last()),
        ));
        assert(append_glyph(before, run.last(), max).lines == open.lines);
    }
}

proof fn bare_run_len(glyphs: Seq<Glyph>)
    ensures
        run_len(bare_line(glyphs)) == run_len(glyphs),
    decreases glyphs.len(),
{
    if glyphs.len() > 1 {
        bare_run_len(glyphs.drop_first());
        assert(bare_line(glyphs).drop_first() =~= bare_line(glyphs.drop_first()));
    }
}

proof fn bare_fill_runs(fill: Fill, pending: Seq<Glyph>, rest: Seq<Glyph>, max: nat)
    ensures
        fill_runs(bare_fill(fill), bare_line(pending), bare_line(rest), max) == bare_fill(
            fill_runs(fill, pending, rest, max),
        ),
    decreases rest.len(),
{
    if rest.len() > 0 {
        run_len_bounds(rest);
        bare_run_len(rest);
        let n = run_len(rest) as int;
        let run = rest.take(n);
        let tail = rest.skip(n);
        assert(bare_line(rest).take(n) =~= bare_line(run));
        assert(bare_line(rest).skip(n) =~= bare_line(tail));
        assert(bare_line(Seq::empty()) =~= Seq::<Glyph>::empty());
        if !rest[0].space {
            bare_width(fill.current);
            bare_width(pending);
            bare_width(run);
            bare_broken(fill);
            bare_append_run(broken(fill), run, max);
            bare_append_run(fill, pending, max);
            bare_append_run(append_run(fill, pending, max), run, max);
            bare_append_run(fill, run, max);
            bare_fill_runs(append_word(fill, pending, run, max), Seq::empty(), tail, max);
        } else if fill.current.len() == 0 || tail.len() == 0 {
            bare_append_run(fill, run, max);
            bare_fill_runs(append_run(fill, run, max), pending, tail, max);
        } else {
            bare_fill_runs(fill, run, tail, max);
        }
    }
}

/// Where a paragraph breaks does not depend on the spans its glyphs came from.
pub proof fn breaks_do_not_depend_on_spans(glyphs: Seq<Glyph>, max: nat)
    ensures
        wrapped(bare_line(glyphs), max) =~= bare_lines(wrapped(glyphs, max)),
{
    let start = Fill { lines: Seq::empty(), current: Seq::empty() };
    bare_fill_runs(start, Seq::empty(), glyphs, max);
    assert(bare_line(Seq::empty()) =~= Seq::<Glyph>::empty());
    assert(bare_lines(Seq::empty()) =~= Seq::<Seq<Glyph>>::empty());
    let filled = fill_runs(start, Seq::empty(), glyphs, max);
    assert(bare_lines(filled.lines.push(filled.current)) =~= bare_lines(filled.lines).push(
        bare_line(filled.current),
    ));
    assert(finished(bare_fill(filled)) =~= bare_lines(finished(filled)));
}

/// The glyphs of a text that came from no span in particular.
pub open spec fn text_line(text: Seq<char>) -> Seq<Glyph> {
    Seq::new(text.len(), |i: int| glyph(text[i], 0))
}

/// The texts of styled lines.
pub open spec fn line_texts(lines: Seq<Seq<SpanView>>) -> Seq<Seq<char>> {
    Seq::new(lines.len(), |i: int| spans_text(lines[i]))
}

/// The glyphs of each text.
spec fn text_lines(texts: Seq<Seq<char>>) -> Seq<Seq<Glyph>> {
    Seq::new(texts.len(), |i: int| text_line(texts[i]))
}

proof fn bare_all_glyphs(spans: Seq<SpanView>)
    ensures
        bare_line(all_glyphs(spans)) == text_line(spans_text(spans)),
    decreases spans.len(),
{
    if spans.len() > 0 {
        bare_all_glyphs(spans.drop_last());
        let before = all_glyphs(spans.drop_last());
        let text = spans_text(spans.drop_last());
        assert(before.len() == bare_line(before).len());
        assert(before.len() == text.len());
        assert forall|i: int| 0 <= i < before.len() implies spanless(#[trigger] before[i])
            == glyph(text[i], 0) by {
            assert(bare_line(before)[i] == text_line(text)[i]);
        }
        assert(bare_line(all_glyphs(spans)) =~= text_line(spans_text(spans)));
    } else {
        assert(bare_line(all_glyphs(spans)) =~= text_line(spans_text(spans)));
    }
}

proof fn bare_split(glyphs: Seq<Glyph>)
    ensures
        split_lines(bare_line(glyphs)) == bare_lines(split_lines(glyphs)),
        split_lines(glyphs).len() >= 1,
    decreases glyphs.len(),
{
    if glyphs.len() == 0 {
        assert(bare_line(glyphs) =~= glyphs);
        assert(bare_line(Seq::empty()) =~= Seq::<Glyph>::empty());
        assert(bare_lines(split_lines(glyphs)) =~= split_lines(glyphs));
    } else {
        let short = glyphs.drop_last();
        bare_split(short);
        assert(bare_line(glyphs).drop_last() =~= bare_line(short));
        let before = split_lines(short);
        let next = glyphs.last();
        assert(bare_line(Seq::empty()) =~= Seq::<Glyph>::empty());
        if next.ch == '\n' {
            assert(bare_lines(before.push(Seq::empty())) =~= bare_lines(before).push(
                Seq::empty(),
            ));
        } else {
            let grown = before.last().push(next);
            assert(bare_line(grown) =~= bare_line(before.last()).push(spanless(next)));
            assert(bare_lines(before.drop_last().push(grown)) =~= bare_lines(
                before,
            ).drop_last().push(bare_line(grown)));
        }
    }
}

proof fn bare_wrapped_all(pieces: Seq<Seq<Glyph>>, max: nat)
    ensures
        wrapped_all(bare_lines(pieces), max) == bare_lines(wrapped_all(pieces, max)),
    decreases pieces.len(),
{
    if pieces.len() == 0 {
        assert(bare_lines(wrapped_all(pieces, max)) =~= Seq::<Seq<Glyph>>::empty());
    } else {
        let short = pieces.drop_last();
        bare_wrapped_all(short, max);
        assert(bare_lines(pieces).drop_last() =~= bare_lines(short));
        breaks_do_not_depend_on_spans(pieces.last(), max);
        let done = wrapped_all(short, max);
        let more = wrapped(pieces.last(), max);
        assert(bare_lines(done + more) =~= bare_lines(done) + bare_lines(more));
    }
}

proof fn chars_of_styled(lines: Seq<Seq<Glyph>>, source: Seq<SpanView>)
    ensures
        line_texts(styled(lines, source)) == Seq::new(
            lines.len(),
            |i: int| chars(bare_lines(lines)[i]),
        ),
{
    assert forall|i: int| 0 <= i < lines.len() implies line_texts(styled(lines, source))[i]
        == chars(bare_lines(lines)[i]) by {
        each_wrapped_glyph_keeps_its_style(lines[i], source);
        assert(styled(lines, source)[i] == merged(lines[i], source));
        assert(chars(bare_line(lines[i])) =~= chars(lines[i]));
    }
    assert(line_texts(styled(lines, source)) =~= Seq::new(
        lines.len(),
        |i: int| chars(bare_lines(lines)[i]),
    ));
}

/// The lines of a text that came from no span in particular.
spec fn bare_wrap(text: Seq<char>, max: nat) -> Seq<Seq<Glyph>> {
    wrapped_all(split_lines(text_line(text)), max)
}

proof fn texts_of_wrapped(spans: Seq<SpanView>, max: nat)
    ensures
        bare_wrap(spans_text(spans), max) == bare_lines(
            wrapped_all(split_lines(all_glyphs(spans)), max),
        ),
        line_texts(wrapped_spans(spans, max)) == Seq::new(
            bare_wrap(spans_text(spans), max).len(),
            |i: int| chars(bare_wrap(spans_text(spans), max)[i]),
        ),
{
    let glyphs = all_glyphs(spans);
    bare_all_glyphs(spans);
    bare_split(glyphs);
    bare_wrapped_all(split_lines(glyphs), max);
    chars_of_styled(wrapped_all(split_lines(glyphs), max), spans);
    assert(line_texts(wrapped_spans(spans, max)) =~= Seq::new(
        bare_wrap(spans_text(spans), max).len(),
        |i: int| chars(bare_wrap(spans_text(spans), max)[i]),
    ));
}

/// A text wraps to the same lines however it is cut into spans: whitespace or
/// a word across a span boundary wraps as in plain text.
pub proof fn span_boundaries_do_not_move_the_breaks(
    a: Seq<SpanView>,
    b: Seq<SpanView>,
    max: nat,
)
    requires
        spans_text(a) == spans_text(b),
    ensures
        line_texts(wrapped_spans(a, max)) == line_texts(wrapped_spans(b, max)),
{
    texts_of_wrapped(a, max);
    texts_of_wrapped(b, max);
}

/// The texts with a `\n` between neighbours.
pub open spec fn with_line_feeds(texts: Seq<Seq<char>>) -> Seq<char>
    decreases texts.len(),
{
    if texts.len() == 0 {
        Seq::empty()
    } else if texts.len() == 1 {
        texts[0]
    } else {
        with_line_feeds(texts.drop_last()).push('\n') + texts.last()
    }
}

spec fn no_feed(text: Seq<char>) -> bool {
    forall|k: int| 0 <= k < text.len() ==> #[trigger] text[k] != '\n'
}

proof fn split_grows(front: Seq<char>, text: Seq<char>)
    requires
        no_feed(text),
    ensures
        split_lines(text_line(front + text)) == split_lines(text_line(front)).drop_last().push(
            split_lines(text_line(front)).last() + text_line(text),
        ),
        split_lines(text_line(front)).len() >= 1,
    decreases text.len(),
{
    let before = split_lines(text_line(front));
    bare_split(text_line(front));
    if text.len() == 0 {
        assert(front + text =~= front);
        assert(before.last() + text_line(text) =~= before.last());
        assert(before.drop_last().push(before.last()) =~= before);
    } else {
        let short = text.drop_last();
        assert(no_feed(short));
        split_grows(front, short);
        let all = text_line(front + text);
        assert(all.drop_last() =~= text_line(front + short));
        assert(text[text.len() - 1] != '\n');
        assert(all.last() == glyph(text.last(), 0));
        let grown = before.last() + text_line(short);
        let middle = before.drop_last().push(grown);
        assert(middle.drop_last() =~= before.drop_last());
        assert(middle.last() == grown);
        assert(grown.push(all.last()) =~= before.last() + text_line(text));
    }
}

proof fn split_of_texts(texts: Seq<Seq<char>>)
    requires
        texts.len() >= 1,
        forall|i: int| 0 <= i < texts.len() ==> no_feed(#[trigger] texts[i]),
    ensures
        split_lines(text_line(with_line_feeds(texts))) == text_lines(texts),
    decreases texts.len(),
{
    let last = texts.last();
    assert(last == texts[texts.len() - 1]);
    if texts.len() == 1 {
        split_grows(Seq::empty(), last);
        assert(Seq::<char>::empty() + last =~= last);
        let none = text_line(Seq::empty());
        assert(none =~= Seq::<Glyph>::empty());
        assert(Seq::<Glyph>::empty() + text_line(last) =~= text_line(last));
        assert(split_lines(text_line(last)) =~= text_lines(texts));
    } else {
        let short = texts.drop_last();
        assert forall|i: int| 0 <= i < short.len() implies no_feed(#[trigger] short[i]) by {
            assert(short[i] == texts[i]);
        }
        split_of_texts(short);
        let front = with_line_feeds(short);
        let fed = front.push('\n');
        assert(text_line(fed).drop_last() =~= text_line(front));
        assert(text_line(fed).last() == glyph('\n', 0));
        let cut = split_lines(text_line(fed));
        assert(cut == text_lines(short).push(Seq::empty()));
        split_grows(fed, last);
        assert(cut.drop_last() =~= text_lines(short));
        assert(Seq::<Glyph>::empty() + text_line(last) =~= text_line(last));
        assert(split_lines(text_line(fed + last)) =~= text_lines(texts));
    }
}

proof fn wrapped_all_lines(pieces: Seq<Seq<Glyph>>, max: nat, i: int)
    requires
        0 <= i < wrapped_all(pieces, max).len(),
    ensures
        tight(wrapped_all(pieces, max)[i], max),
    decreases pieces.len(),
{
    let done = wrapped_all(pieces.drop_last(), max);
    if i < done.len() {
        wrapped_all_lines(pieces.drop_last(), max, i);
    } else {
        wrapped_lines_are_tight(pieces.last(), max, i - done.len());
    }
}

proof fn tight_lines_are_unchanged(lines: Seq<Seq<Glyph>>, max: nat)
    requires
        forall|i: int| 0 <= i < lines.len() ==> tight(#[trigger] lines[i], max),
    ensures
        wrapped_all(lines, max) == lines,
    decreases lines.len(),
{
    if lines.len() > 0 {
        let short = lines.drop_last();
        assert forall|i: int| 0 <= i < short.len() implies tight(#[trigger] short[i], max) by {
            assert(short[i] == lines[i]);
        }
        tight_lines_are_unchanged(short, max);
        assert(tight(lines[lines.len() - 1], max));
        a_tight_line_is_unchanged(lines.last(), max);
        assert(wrapped_all(lines, max) =~= lines);
    }
}

spec fn text_glyphs_only() -> Set<Glyph> {
    Set::new(|g: Glyph| g == glyph(g.ch, 0) && g.ch != '\n')
}

proof fn split_lines_of_text(text: Seq<char>)
    ensures
        lines_within(split_lines(text_line(text)), text_glyphs_only()),
        split_lines(text_line(text)).len() >= 1,
    decreases text.len(),
{
    let pool = text_glyphs_only();
    if text.len() > 0 {
        let short = text.drop_last();
        split_lines_of_text(short);
        let all = text_line(text);
        assert(all.drop_last() =~= text_line(short));
        let before = split_lines(text_line(short));
        assert(within(before.last(), pool));
        assert(all.last() == glyph(text.last(), 0));
        if text.last() != '\n' {
            assert(pool.contains(all.last()));
        }
    }
}

proof fn wrapped_all_within(pieces: Seq<Seq<Glyph>>, max: nat, pool: Set<Glyph>)
    requires
        lines_within(pieces, pool),
    ensures
        lines_within(wrapped_all(pieces, max), pool),
        pieces.len() >= 1 ==> wrapped_all(pieces, max).len() >= 1,
    decreases pieces.len(),
{
    if pieces.len() > 0 {
        let short = pieces.drop_last();
        assert(lines_within(short, pool));
        wrapped_all_within(short, max, pool);
        assert(within(pieces[pieces.len() - 1], pool));
        wrapped_within(pieces.last(), max, pool);
        wrapped_some(pieces.last(), max);
    }
}

/// Wrapping again changes nothing: the lines of a wrap, put together with line
/// feeds and wrapped once more, in whatever spans, are the same lines.
pub proof fn wrapping_again_changes_nothing(
    spans: Seq<SpanView>,
    again: Seq<SpanView>,
    max: nat,
)
    requires
        spans_text(again) == with_line_feeds(line_texts(wrapped_spans(spans, max))),
    ensures
        line_texts(wrapped_spans(again, max)) == line_texts(wrapped_spans(spans, max)),
{
    let pool = text_glyphs_only();
    let lines = bare_wrap(spans_text(spans), max);
    let texts = line_texts(wrapped_spans(spans, max));
    texts_of_wrapped(spans, max);
    texts_of_wrapped(again, max);
    split_lines_of_text(spans_text(spans));
    wrapped_all_within(split_lines(text_line(spans_text(spans))), max, pool);
    assert forall|i: int| 0 <= i < texts.len() implies no_feed(#[trigger] texts[i]) by {
        assert(within(lines[i], pool));
        assert forall|k: int| 0 <= k < texts[i].len() implies #[trigger] texts[i][k] != '\n' by {
            assert(pool.contains(lines[i][k]));
        }
    }
    assert forall|i: int| 0 <= i < lines.len() implies text_line(#[trigger] texts[i])
        == lines[i] by {
        assert(within(lines[i], pool));
        assert forall|k: int| 0 <= k < lines[i].len() implies text_line(texts[i])[k]
            == lines[i][k] by {
            assert(pool.contains(lines[i][k]));
        }
        assert(text_line(texts[i]) =~= lines[i]);
    }
    assert(text_lines(texts) =~= lines);
    split_of_texts(texts);
    assert forall|i: int| 0 <= i < lines.len() implies tight(#[trigger] lines[i], max) by {
        wrapped_all_lines(split_lines(text_line(spans_text(spans))), max, i);
    }
    tight_lines_are_unchanged(lines, max);
}

} // verus!
