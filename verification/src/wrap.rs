//! Greedy word wrap over styled spans.
//!
//! `\n` is a hard break; otherwise the wrap is a plain greedy fill, and cell
//! widths come from `unicode_width`.

use crate::cells::{cell_width, char_width, is_control, is_printable_ascii, white_space};
use crate::snapshot::{line_views, span_views, SnapshotLine, SnapshotSpan, SpanView};
use vstd::prelude::*;

verus! {

/// One character of a line plus the input span it came from, its display
/// width in cells, and whether it is whitespace. Zero-width characters occupy
/// no cell but stay in the text.
#[derive(Debug, Clone, Copy, PartialEq, Eq)]
pub struct Glyph {
    pub ch: char,
    pub span: usize,
    pub width: usize,
    pub space: bool,
}

/// The glyph of character `ch` in input span `span`. A character without a
/// width of its own occupies no cell.
pub open spec fn glyph(ch: char, span: usize) -> Glyph {
    Glyph {
        ch,
        span,
        width: match cell_width(ch) {
            Some(width) => width,
            None => 0,
        },
        space: white_space(ch),
    }
}

impl Glyph {
    /// The glyph of `ch`. A control character occupies no cell, and a printable
    /// ASCII character one.
    pub fn new(ch: char, span: usize) -> (made: Self)
        ensures
            made == glyph(ch, span),
            is_control(ch) ==> made.width == 0,
            is_printable_ascii(ch) ==> made.width == 1,
    {
        let width = match char_width(ch) {
            Some(width) => width,
            None => 0,
        };
        Glyph { ch, span, width, space: ch.is_whitespace() }
    }

    pub fn is_space(&self) -> (space: bool)
        ensures
            space == self.space,
    {
        self.space
    }
}

/// The cells a run of glyphs occupies.
pub open spec fn total_width(run: Seq<Glyph>) -> nat
    decreases run.len(),
{
    if run.len() == 0 {
        0
    } else {
        total_width(run.drop_last()) + run.last().width as nat
    }
}

/// The contents of a list of glyph lines.
pub open spec fn rows(lines: Seq<Vec<Glyph>>) -> Seq<Seq<Glyph>> {
    Seq::new(lines.len(), |i: int| lines[i]@)
}

/// The glyphs of one span's text.
pub open spec fn text_glyphs(text: Seq<char>, span: usize) -> Seq<Glyph> {
    Seq::new(text.len(), |i: int| glyph(text[i], span))
}

/// The glyphs of a whole input, span after span.
pub open spec fn all_glyphs(spans: Seq<SpanView>) -> Seq<Glyph>
    decreases spans.len(),
{
    if spans.len() == 0 {
        Seq::empty()
    } else {
        all_glyphs(spans.drop_last()) + text_glyphs(
            spans.last().text,
            (spans.len() - 1) as usize,
        )
    }
}

/// `glyphs` cut at every `\n`, which belongs to no piece. There is always one
/// piece more than there are breaks.
pub open spec fn split_lines(glyphs: Seq<Glyph>) -> Seq<Seq<Glyph>>
    decreases glyphs.len(),
{
    if glyphs.len() == 0 {
        seq![Seq::empty()]
    } else {
        let before = split_lines(glyphs.drop_last());
        if glyphs.last().ch == '\n' {
            before.push(Seq::empty())
        } else {
            before.drop_last().push(before.last().push(glyphs.last()))
        }
    }
}

/// Splits the text into hard paragraphs at every `\n`. An empty input and a
/// trailing `\n` both leave a trailing empty paragraph.
pub fn paragraphs(spans: &[SnapshotSpan]) -> (out: Vec<Vec<Glyph>>)
    ensures
        rows(out@) == split_lines(all_glyphs(span_views(spans@))),
{
    let ghost views = span_views(spans@);
    let mut out: Vec<Vec<Glyph>> = Vec::new();
    out.push(Vec::new());
    assert(rows(out@) =~= seq![Seq::<Glyph>::empty()]);
    assert(views.take(0) =~= Seq::<SpanView>::empty());
    for span in 0..spans.len()
        invariant
            views == span_views(spans@),
            out@.len() > 0,
            rows(out@) == split_lines(all_glyphs(views.take(span as int))),
    {
        let ghost before = all_glyphs(views.take(span as int));
        let text = spans[span].text.as_str();
        assert(text_glyphs(text@.take(0), span) =~= Seq::<Glyph>::empty());
        assert(before + text_glyphs(text@.take(0), span) =~= before);
        for ch in it: text.chars()
            invariant
                it.seq() == text@,
                out@.len() > 0,
                rows(out@) == split_lines(before + text_glyphs(text@.take(it.index() as int), span)),
        {
            let ghost sofar = before + text_glyphs(text@.take(it.index() as int), span);
            let ghost next = before + text_glyphs(text@.take(it.index() + 1), span);
            let ghost old_rows = rows(out@);
            assert(next.last() == glyph(ch, span));
            assert(next.drop_last() =~= sofar);
            if ch == '\n' {
                out.push(Vec::new());
                assert(rows(out@) =~= old_rows.push(Seq::empty()));
            } else {
                let last = out.len() - 1;
                out[last].push(Glyph::new(ch, span));
                assert(rows(out@) =~= old_rows.drop_last().push(
                    old_rows.last().push(glyph(ch, span)),
                ));
            }
        }
        assert(text@.take(text@.len() as int) =~= text@);
        assert(views.take(span + 1).drop_last() =~= views.take(span as int));
        assert(views.take(span + 1).last() == spans@[span as int]@);
    }
    assert(views.take(spans@.len() as int) =~= views);
    out
}

/// Lines filled so far and the line still open.
pub struct Fill {
    pub lines: Seq<Seq<Glyph>>,
    pub current: Seq<Glyph>,
}

/// `fill` with its open line closed.
pub open spec fn broken(fill: Fill) -> Fill {
    Fill { lines: fill.lines.push(fill.current), current: Seq::empty() }
}

/// `fill` with one glyph appended, breaking first when it would push a line
/// that already occupies a cell past `max`.
pub open spec fn append_glyph(fill: Fill, next: Glyph, max: nat) -> Fill {
    let open = if total_width(fill.current) > 0 && total_width(fill.current) + next.width > max {
        broken(fill)
    } else {
        fill
    };
    Fill { current: open.current.push(next), ..open }
}

/// `fill` with a whole run appended glyph by glyph.
pub open spec fn append_run(fill: Fill, run: Seq<Glyph>, max: nat) -> Fill
    decreases run.len(),
{
    if run.len() == 0 {
        fill
    } else {
        append_glyph(append_run(fill, run.drop_last(), max), run.last(), max)
    }
}

/// Whether the open line cannot take `pending` and then `word`.
pub open spec fn overflows(fill: Fill, pending: Seq<Glyph>, word: Seq<Glyph>, max: nat) -> bool {
    fill.current.len() > 0 && total_width(fill.current) + total_width(pending) + total_width(word)
        > max
}

/// `fill` with a word: on the open line after its separator when both fit,
/// else on a new line with the separator dropped.
pub open spec fn append_word(fill: Fill, pending: Seq<Glyph>, word: Seq<Glyph>, max: nat) -> Fill {
    if overflows(fill, pending, word, max) {
        append_run(broken(fill), word, max)
    } else if fill.current.len() > 0 {
        append_run(append_run(fill, pending, max), word, max)
    } else {
        append_run(fill, word, max)
    }
}

/// The length of the leading run that is all whitespace or all not.
pub open spec fn run_len(glyphs: Seq<Glyph>) -> nat
    decreases glyphs.len(),
{
    if glyphs.len() == 0 {
        0
    } else if glyphs.len() == 1 || glyphs[1].space != glyphs[0].space {
        1
    } else {
        1 + run_len(glyphs.drop_first())
    }
}

/// `fill` continued over the runs of `rest`. Whitespace waits in `pending`
/// for the word it separates, except at the start of the text and at its end,
/// where it stays.
pub open spec fn fill_runs(fill: Fill, pending: Seq<Glyph>, rest: Seq<Glyph>, max: nat) -> Fill
    decreases rest.len(),
{
    if rest.len() == 0 || run_len(rest) == 0 || run_len(rest) > rest.len() {
        fill
    } else {
        let run = rest.take(run_len(rest) as int);
        let tail = rest.skip(run_len(rest) as int);
        if !rest[0].space {
            fill_runs(append_word(fill, pending, run, max), Seq::empty(), tail, max)
        } else if fill.current.len() == 0 || tail.len() == 0 {
            fill_runs(append_run(fill, run, max), pending, tail, max)
        } else {
            fill_runs(fill, run, tail, max)
        }
    }
}

/// The lines of a finished fill: the open one counts when it holds something
/// or is the only one.
pub open spec fn finished(fill: Fill) -> Seq<Seq<Glyph>> {
    if fill.current.len() > 0 || fill.lines.len() == 0 {
        fill.lines.push(fill.current)
    } else {
        fill.lines
    }
}

/// The greedy fill of one paragraph.
pub open spec fn wrapped(glyphs: Seq<Glyph>, max: nat) -> Seq<Seq<Glyph>> {
    finished(
        fill_runs(
            Fill { lines: Seq::empty(), current: Seq::empty() },
            Seq::empty(),
            glyphs,
            max,
        ),
    )
}

/// A run of glyphs has between one glyph and all of them, and its glyphs
/// agree on being whitespace; the glyph after it does not.
pub proof fn run_len_bounds(glyphs: Seq<Glyph>)
    requires
        glyphs.len() > 0,
    ensures
        1 <= run_len(glyphs) <= glyphs.len(),
        forall|i: int| 0 <= i < run_len(glyphs) ==> (#[trigger] glyphs[i]).space == glyphs[0].space,
        run_len(glyphs) < glyphs.len() ==> glyphs[run_len(glyphs) as int].space != glyphs[0].space,
    decreases glyphs.len(),
{
    if glyphs.len() > 1 && glyphs[1].space == glyphs[0].space {
        let rest = glyphs.drop_first();
        run_len_bounds(rest);
        assert forall|i: int| 0 <= i < run_len(glyphs) implies (#[trigger] glyphs[i]).space
            == glyphs[0].space by {
            if i > 0 {
                assert(glyphs[i] == rest[i - 1]);
            }
        }
    }
}

/// A run that ends where the whitespace changes is the leading one.
proof fn run_len_is(glyphs: Seq<Glyph>, n: int)
    requires
        0 < n <= glyphs.len(),
        forall|i: int| 0 <= i < n ==> (#[trigger] glyphs[i]).space == glyphs[0].space,
        n < glyphs.len() ==> glyphs[n].space != glyphs[0].space,
    ensures
        run_len(glyphs) == n,
{
    run_len_bounds(glyphs);
    let m = run_len(glyphs) as int;
    if m < n {
        assert(glyphs[m].space == glyphs[0].space);
    } else if n < m {
        assert(glyphs[n].space == glyphs[0].space);
    }
}

/// Splits the leading run that is either all whitespace or all non-whitespace
/// from the rest.
pub fn take_run(glyphs: &[Glyph]) -> (split: Option<(&[Glyph], &[Glyph])>)
    ensures
        split is None <==> glyphs@.len() == 0,
        split matches Some((run, tail)) ==> {
            &&& run@ == glyphs@.take(run_len(glyphs@) as int)
            &&& tail@ == glyphs@.skip(run_len(glyphs@) as int)
            &&& 1 <= run@.len() == run_len(glyphs@) <= glyphs@.len()
        },
{
    if glyphs.len() == 0 {
        return None;
    }
    let space = glyphs[0].is_space();
    let mut end: usize = 1;
    while end < glyphs.len() && glyphs[end].is_space() == space
        invariant
            1 <= end <= glyphs@.len(),
            space == glyphs@[0].space,
            forall|i: int| 0 <= i < end ==> (#[trigger] glyphs@[i]).space == space,
        decreases glyphs@.len() - end,
    {
        end += 1;
    }
    proof {
        run_len_is(glyphs@, end as int);
    }
    let (run, tail) = glyphs.split_at(end);
    assert(run@ =~= glyphs@.take(end as int));
    assert(tail@ =~= glyphs@.skip(end as int));
    Some((run, tail))
}

/// The cells a run occupies, or `usize::MAX` when that is fewer.
pub fn run_width(run: &[Glyph]) -> (width: usize)
    ensures
        width == if total_width(run@) <= usize::MAX {
            total_width(run@)
        } else {
            usize::MAX as nat
        },
{
    let mut width: usize = 0;
    assert(run@.take(0) =~= Seq::<Glyph>::empty());
    for i in 0..run.len()
        invariant
            width == if total_width(run@.take(i as int)) <= usize::MAX {
                total_width(run@.take(i as int))
            } else {
                usize::MAX as nat
            },
    {
        assert(run@.take(i + 1).drop_last() =~= run@.take(i as int));
        width = width.saturating_add(run[i].width);
    }
    assert(run@.take(run@.len() as int) =~= run@);
    width
}

/// Appends `run` to the open line, breaking whenever the next glyph would push
/// the line past `max`. A glyph wider than the whole line still lands on its
/// own line.
pub fn push_run(
    current: &mut Vec<Glyph>,
    width: &mut usize,
    run: &[Glyph],
    max: usize,
    lines: &mut Vec<Vec<Glyph>>,
)
    requires
        *old(width) == total_width(old(current)@),
        max < usize::MAX,
    ensures
        *final(width) == total_width(final(current)@),
        (Fill { lines: rows(final(lines)@), current: final(current)@ }) == append_run(
            Fill { lines: rows(old(lines)@), current: old(current)@ },
            run@,
            max as nat,
        ),
{
    let ghost start = Fill { lines: rows(lines@), current: current@ };
    assert(run@.take(0) =~= Seq::<Glyph>::empty());
    for i in 0..run.len()
        invariant
            max < usize::MAX,
            *width == total_width(current@),
            (Fill { lines: rows(lines@), current: current@ }) == append_run(
                start,
                run@.take(i as int),
                max as nat,
            ),
    {
        let ghost before = Fill { lines: rows(lines@), current: current@ };
        let next = run[i];
        assert(run@.take(i + 1).drop_last() =~= run@.take(i as int));
        if *width > 0 && width.saturating_add(next.width) > max {
            let mut full: Vec<Glyph> = Vec::new();
            std::mem::swap(&mut full, current);
            lines.push(full);
            *width = 0;
            assert(rows(lines@) =~= before.lines.push(before.current));
            assert(current@ =~= Seq::<Glyph>::empty());
        }
        let ghost open = current@;
        assert(*width == total_width(open));
        current.push(next);
        assert(current@.drop_last() =~= open);
        assert(current@.last() == next);
        *width = *width + next.width;
    }
    assert(run@.take(run@.len() as int) =~= run@);
}

/// Greedy fill of one `\n`-free paragraph. A word that would overflow opens a
/// new line before it, and the whitespace that separated it is dropped. A word
/// wider than `max` is cut at `max`, and a single character wider than `max`
/// gets a line of its own so no text is lost.
pub fn wrap_paragraph(glyphs: &[Glyph], max: usize) -> (lines: Vec<Vec<Glyph>>)
    requires
        max < usize::MAX,
    ensures
        rows(lines@) == wrapped(glyphs@, max as nat),
{
    let mut lines: Vec<Vec<Glyph>> = Vec::new();
    let mut current: Vec<Glyph> = Vec::new();
    let mut width: usize = 0;
    let (none, all) = glyphs.split_at(0);
    let mut pending: &[Glyph] = none;
    let mut rest: &[Glyph] = all;
    assert(pending@ =~= Seq::<Glyph>::empty());
    assert(rest@ =~= glyphs@);
    assert(rows(lines@) =~= Seq::<Seq<Glyph>>::empty());
    assert(current@ =~= Seq::<Glyph>::empty());
    while rest.len() > 0
        invariant
            max < usize::MAX,
            none@ == Seq::<Glyph>::empty(),
            width == total_width(current@),
            fill_runs(
                Fill { lines: rows(lines@), current: current@ },
                pending@,
                rest@,
                max as nat,
            ) == fill_runs(
                Fill { lines: Seq::empty(), current: Seq::empty() },
                Seq::empty(),
                glyphs@,
                max as nat,
            ),
        decreases rest@.len(),
    {
        if let Some((run, tail)) = take_run(rest) {
            assert(run@[0] == rest@[0]);
            if run[0].is_space() {
                if current.len() == 0 || tail.len() == 0 {
                    push_run(&mut current, &mut width, run, max, &mut lines);
                } else {
                    pending = run;
                }
            } else {
                let ghost fill = Fill { lines: rows(lines@), current: current@ };
                let needed = width.saturating_add(run_width(pending)).saturating_add(
                    run_width(run),
                );
                if current.len() > 0 && needed > max {
                    let mut full: Vec<Glyph> = Vec::new();
                    std::mem::swap(&mut full, &mut current);
                    lines.push(full);
                    width = 0;
                    assert(rows(lines@) =~= fill.lines.push(fill.current));
                    assert(current@ =~= Seq::<Glyph>::empty());
                } else if current.len() > 0 {
                    push_run(&mut current, &mut width, pending, max, &mut lines);
                }
                pending = none;
                push_run(&mut current, &mut width, run, max, &mut lines);
            }
            rest = tail;
        }
    }
    if current.len() > 0 || lines.len() == 0 {
        let ghost filled = rows(lines@);
        let ghost open = current@;
        lines.push(current);
        assert(rows(lines@) =~= filled.push(open));
    }
    lines
}

/// The spans of one wrapped line: neighbouring glyphs of the same input span
/// share a span, and each span has the style of the input span it came from.
pub open spec fn merged(glyphs: Seq<Glyph>, source: Seq<SpanView>) -> Seq<SpanView>
    decreases glyphs.len(),
{
    if glyphs.len() == 0 {
        Seq::empty()
    } else {
        let before = merged(glyphs.drop_last(), source);
        let next = glyphs.last();
        if glyphs.len() > 1 && glyphs[glyphs.len() - 2].span == next.span && before.len() > 0 {
            before.drop_last().push(
                SpanView { text: before.last().text.push(next.ch), style: before.last().style },
            )
        } else {
            before.push(SpanView { text: seq![next.ch], style: source[next.span as int].style })
        }
    }
}

/// Rebuilds spans from a wrapped line, merging runs of glyphs that came from
/// the same input span and cloning each span's style once.
pub fn to_spans(glyphs: &[Glyph], source: &[SnapshotSpan]) -> (spans: Vec<SnapshotSpan>)
    requires
        forall|i: int| 0 <= i < glyphs@.len() ==> (#[trigger] glyphs@[i]).span < source@.len(),
    ensures
        span_views(spans@) == merged(glyphs@, span_views(source@)),
{
    let ghost views = span_views(source@);
    let mut spans: Vec<SnapshotSpan> = Vec::new();
    assert(glyphs@.take(0) =~= Seq::<Glyph>::empty());
    assert(span_views(spans@) =~= Seq::<SpanView>::empty());
    for i in 0..glyphs.len()
        invariant
            views == span_views(source@),
            forall|k: int| 0 <= k < glyphs@.len() ==> (#[trigger] glyphs@[k]).span < source@.len(),
            span_views(spans@) == merged(glyphs@.take(i as int), views),
    {
        let next = glyphs[i];
        let ghost before = span_views(spans@);
        assert(glyphs@.take(i + 1).drop_last() =~= glyphs@.take(i as int));
        assert(glyphs@.take(i + 1).last() == next);
        if i > 0 && spans.len() > 0 && glyphs[i - 1].span == next.span {
            let last = spans.len() - 1;
            spans[last].text.push(next.ch);
            assert(span_views(spans@) =~= before.drop_last().push(
                SpanView { text: before.last().text.push(next.ch), style: before.last().style },
            ));
        } else {
            let mut text = String::new();
            text.push(next.ch);
            assert(text@ =~= seq![next.ch]);
            spans.push(SnapshotSpan { text, style: source[next.span].style.clone() });
            assert(span_views(spans@) =~= before.push(
                SpanView { text: seq![next.ch], style: views[next.span as int].style },
            ));
        }
    }
    assert(glyphs@.take(glyphs@.len() as int) =~= glyphs@);
    spans
}

/// Every line of every paragraph, in order.
pub open spec fn wrapped_all(pieces: Seq<Seq<Glyph>>, max: nat) -> Seq<Seq<Glyph>>
    decreases pieces.len(),
{
    if pieces.len() == 0 {
        Seq::empty()
    } else {
        wrapped_all(pieces.drop_last(), max) + wrapped(pieces.last(), max)
    }
}

/// The wrapped lines as styled spans.
pub open spec fn wrapped_spans(spans: Seq<SpanView>, max: nat) -> Seq<Seq<SpanView>> {
    styled(wrapped_all(split_lines(all_glyphs(spans)), max), spans)
}

/// Splits `spans` on `\n` into hard lines, then greedily wraps each one to
/// `width` display cells. Always yields at least one line, so an empty input
/// wraps to a single empty line.
pub fn wrap_lines(spans: &[SnapshotSpan], width: u16) -> (lines: Vec<SnapshotLine>)
    ensures
        line_views(lines@) == wrapped_spans(span_views(spans@), width as nat),
        lines@.len() >= 1,
{
    let max = width as usize;
    let ghost views = span_views(spans@);
    let pieces = paragraphs(spans);
    let ghost split = rows(pieces@);
    let ghost own = Set::new(|g: Glyph| g.span < spans@.len());
    proof {
        assert(spans.len() == spans@.len());
        all_glyphs_own(views, own);
        split_lines_within(all_glyphs(views), own);
    }
    let mut lines: Vec<SnapshotLine> = Vec::new();
    assert(split.take(0) =~= Seq::<Seq<Glyph>>::empty());
    assert(line_views(lines@) =~= Seq::<Seq<SpanView>>::empty());
    for p in 0..pieces.len()
        invariant
            max < usize::MAX,
            max == width,
            views == span_views(spans@),
            split == rows(pieces@),
            lines_within(split, own),
            own == Set::new(|g: Glyph| g.span < spans@.len()),
            line_views(lines@) == styled(wrapped_all(split.take(p as int), max as nat), views),
            p > 0 ==> lines@.len() >= 1,
    {
        let filled = wrap_paragraph(pieces[p].as_slice(), max);
        let ghost done = wrapped_all(split.take(p as int), max as nat);
        let ghost more = wrapped(split[p as int], max as nat);
        assert(more == rows(filled@));
        assert(split.take(p + 1).drop_last() =~= split.take(p as int));
        assert(split.take(p + 1).last() == split[p as int]);
        proof {
            wrapped_within(split[p as int], max as nat, own);
            wrapped_some(split[p as int], max as nat);
        }
        assert(line_views(lines@) =~= styled(done + more.take(0), views));
        for i in 0..filled.len()
            invariant
                views == span_views(spans@),
                own == Set::new(|g: Glyph| g.span < spans@.len()),
                more == rows(filled@),
                lines_within(more, own),
                line_views(lines@) == styled(done + more.take(i as int), views),
                lines@.len() >= i,
        {
            let ghost before = line_views(lines@);
            assert(within(more[i as int], own));
            assert forall|k: int| 0 <= k < filled@[i as int]@.len() implies (
            #[trigger] filled@[i as int]@[k]).span < spans@.len() by {
                assert(own.contains(more[i as int][k]));
            }
            let line = SnapshotLine { spans: to_spans(filled[i].as_slice(), spans) };
            lines.push(line);
            assert(line_views(lines@) =~= before.push(merged(more[i as int], views)));
            assert(styled(done + more.take(i + 1), views) =~= before.push(
                merged(more[i as int], views),
            ));
        }
        assert(more.take(more.len() as int) =~= more);
    }
    assert(split.take(split.len() as int) =~= split);
    lines
}

/// Glyph lines as styled spans.
pub open spec fn styled(lines: Seq<Seq<Glyph>>, source: Seq<SpanView>) -> Seq<Seq<SpanView>> {
    Seq::new(lines.len(), |i: int| merged(lines[i], source))
}

/// Every glyph of `line` is one of `pool`.
pub open spec fn within(line: Seq<Glyph>, pool: Set<Glyph>) -> bool {
    forall|k: int| 0 <= k < line.len() ==> pool.contains(#[trigger] line[k])
}

/// Every glyph of every line is one of `pool`.
pub open spec fn lines_within(lines: Seq<Seq<Glyph>>, pool: Set<Glyph>) -> bool {
    forall|i: int| 0 <= i < lines.len() ==> within(#[trigger] lines[i], pool)
}

proof fn all_glyphs_own(spans: Seq<SpanView>, own: Set<Glyph>)
    requires
        spans.len() <= usize::MAX,
        forall|g: Glyph| g.span < spans.len() ==> own.contains(g),
    ensures
        within(all_glyphs(spans), own),
    decreases spans.len(),
{
    if spans.len() > 0 {
        all_glyphs_own(spans.drop_last(), own);
    }
}

proof fn split_lines_within(glyphs: Seq<Glyph>, pool: Set<Glyph>)
    requires
        within(glyphs, pool),
    ensures
        lines_within(split_lines(glyphs), pool),
        split_lines(glyphs).len() >= 1,
    decreases glyphs.len(),
{
    if glyphs.len() > 0 {
        assert(within(glyphs.drop_last(), pool));
        split_lines_within(glyphs.drop_last(), pool);
        let before = split_lines(glyphs.drop_last());
        assert(within(before.last(), pool));
        assert(pool.contains(glyphs[glyphs.len() - 1]));
    }
}

proof fn append_run_within(fill: Fill, run: Seq<Glyph>, max: nat, pool: Set<Glyph>)
    requires
        lines_within(fill.lines, pool),
        within(fill.current, pool),
        within(run, pool),
    ensures
        lines_within(append_run(fill, run, max).lines, pool),
        within(append_run(fill, run, max).current, pool),
    decreases run.len(),
{
    if run.len() > 0 {
        append_run_within(fill, run.drop_last(), max, pool);
        assert(pool.contains(run[run.len() - 1]));
    }
}

proof fn fill_runs_within(
    fill: Fill,
    pending: Seq<Glyph>,
    rest: Seq<Glyph>,
    max: nat,
    pool: Set<Glyph>,
)
    requires
        lines_within(fill.lines, pool),
        within(fill.current, pool),
        within(pending, pool),
        within(rest, pool),
    ensures
        lines_within(fill_runs(fill, pending, rest, max).lines, pool),
        within(fill_runs(fill, pending, rest, max).current, pool),
    decreases rest.len(),
{
    if rest.len() > 0 {
        run_len_bounds(rest);
        let run = rest.take(run_len(rest) as int);
        let tail = rest.skip(run_len(rest) as int);
        assert(within(run, pool));
        assert(within(tail, pool));
        if !rest[0].space {
            append_run_within(broken(fill), run, max, pool);
            append_run_within(fill, pending, max, pool);
            append_run_within(append_run(fill, pending, max), run, max, pool);
            append_run_within(fill, run, max, pool);
            fill_runs_within(
                append_word(fill, pending, run, max),
                Seq::empty(),
                tail,
                max,
                pool,
            );
        } else if fill.current.len() == 0 || tail.len() == 0 {
            append_run_within(fill, run, max, pool);
            fill_runs_within(append_run(fill, run, max), pending, tail, max, pool);
        } else {
            fill_runs_within(fill, run, tail, max, pool);
        }
    }
}

/// Wrapping invents nothing: every glyph of a wrapped paragraph is one of the
/// paragraph's own.
pub proof fn wrapped_within(glyphs: Seq<Glyph>, max: nat, pool: Set<Glyph>)
    requires
        within(glyphs, pool),
    ensures
        lines_within(wrapped(glyphs, max), pool),
{
    fill_runs_within(
        Fill { lines: Seq::empty(), current: Seq::empty() },
        Seq::empty(),
        glyphs,
        max,
        pool,
    );
}

/// Even an empty paragraph wraps to a line.
pub proof fn wrapped_some(glyphs: Seq<Glyph>, max: nat)
    ensures
        wrapped(glyphs, max).len() >= 1,
{
}

} // verus!
