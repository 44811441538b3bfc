//! Where a wrapped paragraph breaks.

use crate::wrap::{
    append_glyph, append_run, append_word, broken, fill_runs, run_len, run_len_bounds, total_width,
    wrapped, Fill, Glyph,
};
use crate::wrap_again_laws::all_space;
use crate::wrap_laws::{append_run_unbroken, total_width_add};
use vstd::prelude::*;

verus! {

/// Where a line was cut from its paragraph: its glyphs are those from `start`
/// up to `end`.
pub struct Cut {
    pub start: int,
    pub end: int,
}

/// The glyphs from `a` up to `b` are a word: no whitespace among them, and
/// nothing but whitespace next to them.
pub open spec fn is_word(glyphs: Seq<Glyph>, a: int, b: int) -> bool {
    &&& 0 <= a < b <= glyphs.len()
    &&& forall|k: int| a <= k < b ==> !(#[trigger] glyphs[k]).space
    &&& a == 0 || glyphs[a - 1].space
    &&& b == glyphs.len() || glyphs[b].space
}

/// The cells of the glyphs from `a` up to `b`.
pub open spec fn cells(glyphs: Seq<Glyph>, a: int, b: int) -> nat {
    total_width(glyphs.subrange(a, b))
}

/// Where a run may be cut when its line starts at `start`: in the whitespace at
/// the paragraph's start or end, and inside a word that is wider than `max`,
/// which then has the line for itself.
pub open spec fn may_cut(glyphs: Seq<Glyph>, start: int, at: int, max: nat) -> bool {
    if glyphs[at].space {
        all_space(glyphs.take(at + 1)) || all_space(glyphs.skip(at))
    } else {
        exists|a: int, b: int| #[trigger]
            is_word(glyphs, a, b) && a <= start && a < at < b && cells(glyphs, a, b) > max
    }
}

/// The line could not take the word that starts at `next`. Whitespace before
/// the word is on the line only at the paragraph's start.
pub open spec fn word_overflows(glyphs: Seq<Glyph>, line: Cut, next: int, max: nat) -> bool {
    &&& exists|b: int| #[trigger] is_word(glyphs, next, b) && cells(glyphs, line.start, b) > max
    &&& line.end == next ==> all_space(glyphs.take(next))
}

/// The line occupies a cell and could not take the glyph at `next`, which is
/// where its run may be cut.
pub open spec fn glyph_overflows(glyphs: Seq<Glyph>, line: Cut, next: int, max: nat) -> bool {
    &&& line.end == next < glyphs.len()
    &&& cells(glyphs, line.start, next) > 0
    &&& cells(glyphs, line.start, next + 1) > max
    &&& may_cut(glyphs, line.start, next, max)
}

/// The break after line `i`: at most the whitespace after a word is dropped,
/// and the line could not take what follows.
pub open spec fn break_at(glyphs: Seq<Glyph>, cuts: Seq<Cut>, i: int, max: nat) -> bool {
    let line = cuts[i];
    let next = cuts[i + 1].start;
    &&& line.start < line.end <= next
    &&& forall|k: int| line.end <= k < next ==> (#[trigger] glyphs[k]).space
    &&& line.end < next ==> 0 < line.end && !glyphs[line.end - 1].space
    &&& word_overflows(glyphs, line, next, max) || glyph_overflows(glyphs, line, next, max)
}

/// The lines are cut from the paragraph, from its first glyph on, and each
/// break is where a line could not take what follows.
pub open spec fn cut_from(
    glyphs: Seq<Glyph>,
    lines: Seq<Seq<Glyph>>,
    cuts: Seq<Cut>,
    max: nat,
) -> bool {
    &&& cuts.len() == lines.len() >= 1
    &&& cuts[0].start == 0
    &&& forall|i: int|
        0 <= i < cuts.len() ==> 0 <= (#[trigger] cuts[i]).start <= cuts[i].end <= glyphs.len()
            && lines[i] == glyphs.subrange(cuts[i].start, cuts[i].end)
    &&& forall|i: int| 0 <= i < cuts.len() - 1 ==> #[trigger] break_at(glyphs, cuts, i, max)
}

/// The lines are all of the paragraph, cut where they overflow.
pub open spec fn greedy(
    glyphs: Seq<Glyph>,
    lines: Seq<Seq<Glyph>>,
    cuts: Seq<Cut>,
    max: nat,
) -> bool {
    cut_from(glyphs, lines, cuts, max) && cuts.last().end == glyphs.len()
}

spec fn traced(glyphs: Seq<Glyph>, fill: Fill, cuts: Seq<Cut>, max: nat) -> bool {
    cut_from(glyphs, fill.lines.push(fill.current), cuts, max)
}

proof fn cells_add(glyphs: Seq<Glyph>, a: int, b: int, c: int)
    requires
        0 <= a <= b <= c <= glyphs.len(),
    ensures
        cells(glyphs, a, c) == cells(glyphs, a, b) + cells(glyphs, b, c),
{
    assert(glyphs.subrange(a, c) =~= glyphs.subrange(a, b) + glyphs.subrange(b, c));
    total_width_add(glyphs.subrange(a, b), glyphs.subrange(b, c));
}

/// The open line is the last cut.
proof fn open_line(glyphs: Seq<Glyph>, fill: Fill, cuts: Seq<Cut>, max: nat)
    requires
        traced(glyphs, fill, cuts, max),
    ensures
        0 <= cuts.last().start <= cuts.last().end <= glyphs.len(),
        fill.current == glyphs.subrange(cuts.last().start, cuts.last().end),
{
    let i = cuts.len() - 1;
    assert(cuts[i] == cuts.last());
    assert(fill.lines.push(fill.current)[i] == fill.current);
}

/// The open line grown up to `end`.
proof fn grown(glyphs: Seq<Glyph>, fill: Fill, cuts: Seq<Cut>, end: int, max: nat) -> (after: Seq<
    Cut,
>)
    requires
        traced(glyphs, fill, cuts, max),
        cuts.last().end <= end <= glyphs.len(),
    ensures
        traced(
            glyphs,
            Fill { lines: fill.lines, current: glyphs.subrange(cuts.last().start, end) },
            after,
            max,
        ),
        after.last() == (Cut { start: cuts.last().start, end }),
{
    let last = cuts.len() - 1;
    let after = cuts.drop_last().push(Cut { start: cuts.last().start, end });
    let lines = fill.lines.push(fill.current);
    let now = fill.lines.push(glyphs.subrange(cuts.last().start, end));
    assert(cuts[last] == cuts.last());
    assert forall|i: int| 0 <= i < after.len() implies 0 <= (#[trigger] after[i]).start
        <= after[i].end <= glyphs.len() && now[i] == glyphs.subrange(
        after[i].start,
        after[i].end,
    ) by {
        if i < last {
            assert(after[i] == cuts[i]);
            assert(now[i] == lines[i]);
        }
    }
    assert forall|i: int| 0 <= i < after.len() - 1 implies #[trigger] break_at(
        glyphs,
        after,
        i,
        max,
    ) by {
        assert(break_at(glyphs, cuts, i, max));
        assert(after[i] == cuts[i]);
        assert(after[i + 1].start == cuts[i + 1].start);
    }
    assert(after[0].start == cuts[0].start);
    after
}

/// The open line closed, and the next one opened at `next`.
proof fn opened(glyphs: Seq<Glyph>, fill: Fill, cuts: Seq<Cut>, next: int, max: nat) -> (after: Seq<
    Cut,
>)
    requires
        traced(glyphs, fill, cuts, max),
        fill.current.len() > 0,
        cuts.last().end <= next <= glyphs.len(),
        forall|k: int| cuts.last().end <= k < next ==> (#[trigger] glyphs[k]).space,
        cuts.last().end < next ==> 0 < cuts.last().end && !glyphs[cuts.last().end - 1].space,
        word_overflows(glyphs, cuts.last(), next, max) || glyph_overflows(
            glyphs,
            cuts.last(),
            next,
            max,
        ),
    ensures
        traced(glyphs, broken(fill), after, max),
        after.last() == (Cut { start: next, end: next }),
{
    let after = cuts.push(Cut { start: next, end: next });
    let lines = fill.lines.push(fill.current);
    let now = lines.push(Seq::empty());
    assert(glyphs.subrange(next, next) =~= Seq::<Glyph>::empty());
    open_line(glyphs, fill, cuts, max);
    assert forall|i: int| 0 <= i < after.len() implies 0 <= (#[trigger] after[i]).start
        <= after[i].end <= glyphs.len() && now[i] == glyphs.subrange(
        after[i].start,
        after[i].end,
    ) by {
        if i < cuts.len() {
            assert(after[i] == cuts[i]);
            assert(now[i] == lines[i]);
        }
    }
    assert forall|i: int| 0 <= i < after.len() - 1 implies #[trigger] break_at(
        glyphs,
        after,
        i,
        max,
    ) by {
        assert(after[i] == cuts[i]);
        if i < cuts.len() - 1 {
            assert(break_at(glyphs, cuts, i, max));
            assert(after[i + 1] == cuts[i + 1]);
        } else {
            assert(cuts[i] == cuts.last());
        }
    }
    assert(after[0] == cuts[0]);
    after
}

/// The next `n` glyphs appended one by one.
proof fn run_traced(glyphs: Seq<Glyph>, fill: Fill, cuts: Seq<Cut>, n: int, max: nat) -> (after:
    Seq<Cut>)
    requires
        traced(glyphs, fill, cuts, max),
        0 <= n,
        cuts.last().end + n <= glyphs.len(),
        forall|k: int|
            cuts.last().end <= k < cuts.last().end + n ==> #[trigger] may_cut(
                glyphs,
                cuts.last().start,
                k,
                max,
            ) || (k == cuts.last().end && total_width(fill.current) == 0),
    ensures
        traced(
            glyphs,
            append_run(fill, glyphs.subrange(cuts.last().end, cuts.last().end + n), max),
            after,
            max,
        ),
        after.last().end == cuts.last().end + n,
        after.last().start >= cuts.last().start,
    decreases n,
{
    let p = cuts.last().end;
    open_line(glyphs, fill, cuts, max);
    let run = glyphs.subrange(p, p + n);
    if n == 0 {
        assert(append_run(fill, run, max) == fill);
        cuts
    } else {
        let q = p + n - 1;
        let short = run.drop_last();
        assert(short =~= glyphs.subrange(p, q));
        let middle = run_traced(glyphs, fill, cuts, n - 1, max);
        let before = append_run(fill, short, max);
        open_line(glyphs, before, middle, max);
        let start = middle.last().start;
        cells_add(glyphs, start, q, q + 1);
        let next = glyphs[q];
        assert(run.last() == next);
        assert(glyphs.subrange(q, q + 1) =~= seq![next]);
        assert(seq![next].drop_last() =~= Seq::<Glyph>::empty());
        assert(total_width(Seq::<Glyph>::empty()) == 0);
        assert(cells(glyphs, q, q + 1) == next.width);
        assert(append_run(fill, run, max) == append_glyph(before, next, max));
        if total_width(before.current) > 0 && total_width(before.current) + next.width > max {
            if n == 1 {
                assert(before == fill);
            }
            assert(may_cut(glyphs, cuts.last().start, q, max));
            assert(may_cut(glyphs, start, q, max)) by {
                if !next.space {
                    let (a, b) = choose|a: int, b: int| #[trigger]
                        is_word(glyphs, a, b) && a <= cuts.last().start && a < q < b && cells(
                            glyphs,
                            a,
                            b,
                        ) > max;
                    assert(is_word(glyphs, a, b) && a <= start);
                }
            }
            let split = opened(glyphs, before, middle, q, max);
            let after = grown(glyphs, broken(before), split, q + 1, max);
            assert(Seq::<Glyph>::empty().push(next) =~= glyphs.subrange(q, q + 1));
            after
        } else {
            let after = grown(glyphs, before, middle, q + 1, max);
            assert(before.current.push(next) =~= glyphs.subrange(start, q + 1));
            after
        }
    }
}

/// A word on a line of its own, cut only when it is wider than any line.
proof fn word_traced(glyphs: Seq<Glyph>, fill: Fill, cuts: Seq<Cut>, end: int, max: nat) -> (after:
    Seq<Cut>)
    requires
        traced(glyphs, fill, cuts, max),
        fill.current.len() == 0,
        is_word(glyphs, cuts.last().end, end),
    ensures
        traced(
            glyphs,
            append_run(fill, glyphs.subrange(cuts.last().end, end), max),
            after,
            max,
        ),
        after.last().end == end,
{
    let p = cuts.last().end;
    let run = glyphs.subrange(p, end);
    open_line(glyphs, fill, cuts, max);
    if total_width(run) <= max {
        append_run_unbroken(fill, run, max);
        let after = grown(glyphs, fill, cuts, end, max);
        assert(fill.current + run =~= glyphs.subrange(cuts.last().start, end));
        after
    } else {
        assert(cuts.last().start == p);
        assert forall|k: int| p <= k < p + (end - p) implies #[trigger] may_cut(glyphs, p, k, max)
            || (k == p && total_width(fill.current) == 0) by {
            if k > p {
                assert(!glyphs[k].space);
                assert(is_word(glyphs, p, end) && p < k < end && cells(glyphs, p, end) > max);
            }
        }
        run_traced(glyphs, fill, cuts, end - p, max)
    }
}

/// The fill from position `p` on, with the whitespace since the open line's end
/// pending.
proof fn fill_traced(glyphs: Seq<Glyph>, fill: Fill, cuts: Seq<Cut>, p: int, max: nat) -> (after:
    Seq<Cut>)
    requires
        traced(glyphs, fill, cuts, max),
        cuts.last().end <= p <= glyphs.len(),
        fill.current.len() == 0 ==> p == 0 && fill.lines.len() == 0,
        p == 0 || p == glyphs.len() || glyphs[p - 1].space != glyphs[p].space,
        forall|k: int| cuts.last().end <= k < p ==> (#[trigger] glyphs[k]).space,
        cuts.last().end < p ==> 0 < cuts.last().end && !glyphs[cuts.last().end - 1].space && p
            < glyphs.len() && !glyphs[p].space,
        cuts.last().end == p < glyphs.len() && !glyphs[p].space ==> all_space(glyphs.take(p)),
    ensures
        ({
            let filled = fill_runs(
                fill,
                glyphs.subrange(cuts.last().end, p),
                glyphs.skip(p),
                max,
            );
            &&& traced(glyphs, filled, after, max)
            &&& after.last().end == glyphs.len()
            &&& filled.current.len() == 0 ==> filled.lines.len() == 0
        }),
    decreases glyphs.len() - p,
{
    let rest = glyphs.skip(p);
    let from = cuts.last().end;
    let start = cuts.last().start;
    let pending = glyphs.subrange(from, p);
    open_line(glyphs, fill, cuts, max);
    if rest.len() == 0 {
        cuts
    } else {
        run_len_bounds(rest);
        let n = run_len(rest) as int;
        let q = p + n;
        let run = rest.take(n);
        assert(run =~= glyphs.subrange(p, q));
        assert(rest.skip(n) =~= glyphs.skip(q));
        assert(rest[0] == glyphs[p]);
        assert forall|k: int| p <= k < q implies (#[trigger] glyphs[k]).space
            == glyphs[p].space by {
            assert(rest[k - p] == glyphs[k]);
        }
        if q < glyphs.len() {
            assert(rest[n] == glyphs[q]);
        }
        assert(glyphs[q - 1].space == glyphs[p].space);
        assert(glyphs.subrange(q, q) =~= Seq::<Glyph>::empty());
        if !glyphs[p].space {
            assert(is_word(glyphs, p, q));
            cells_add(glyphs, start, from, p);
            cells_add(glyphs, start, p, q);
            let next = append_word(fill, pending, run, max);
            let more = if fill.current.len() > 0 && cells(glyphs, start, q) > max {
                let split = opened(glyphs, fill, cuts, p, max);
                word_traced(glyphs, broken(fill), split, q, max)
            } else if fill.current.len() > 0 {
                append_run_unbroken(fill, pending, max);
                total_width_add(fill.current, pending);
                append_run_unbroken(append_run(fill, pending, max), run, max);
                assert(fill.current + pending + run =~= glyphs.subrange(start, q));
                grown(glyphs, fill, cuts, q, max)
            } else {
                word_traced(glyphs, fill, cuts, q, max)
            };
            assert(next.current.len() > 0);
            fill_traced(glyphs, next, more, q, max)
        } else if fill.current.len() == 0 || q == glyphs.len() {
            assert(from == p);
            assert forall|k: int| p <= k < p + n implies #[trigger] may_cut(
                glyphs,
                start,
                k,
                max,
            ) by {
                assert(glyphs[k].space);
                if q == glyphs.len() {
                    let tail = glyphs.skip(k);
                    assert forall|j: int| 0 <= j < tail.len() implies (
                    #[trigger] tail[j]).space by {
                        assert(glyphs[k + j].space);
                    }
                } else {
                    let head = glyphs.take(k + 1);
                    assert forall|j: int| 0 <= j < head.len() implies (
                    #[trigger] head[j]).space by {
                        assert(glyphs[j].space);
                    }
                }
            }
            let more = run_traced(glyphs, fill, cuts, n, max);
            assert(glyphs.subrange(from, p) =~= Seq::<Glyph>::empty());
            if q < glyphs.len() {
                let head = glyphs.take(q);
                assert forall|j: int| 0 <= j < head.len() implies (#[trigger] head[j]).space by {
                    assert(glyphs[j].space);
                }
            }
            fill_traced(glyphs, append_run(fill, run, max), more, q, max)
        } else {
            assert(from == p);
            fill_traced(glyphs, fill, cuts, q, max)
        }
    }
}

/// A wrapped paragraph is cut from it in order, whitespace between two words at
/// most is dropped, and a break comes only where the line could not take what
/// follows: the next word, or a glyph of a run that may be cut.
pub proof fn a_break_comes_where_the_line_overflows(glyphs: Seq<Glyph>, max: nat)
    ensures
        exists|cuts: Seq<Cut>| #[trigger] greedy(glyphs, wrapped(glyphs, max), cuts, max),
{
    let start = Fill { lines: Seq::empty(), current: Seq::empty() };
    let none = seq![Cut { start: 0, end: 0 }];
    assert(glyphs.subrange(0, 0) =~= Seq::<Glyph>::empty());
    assert(glyphs.skip(0) =~= glyphs);
    assert(traced(glyphs, start, none, max));
    let cuts = fill_traced(glyphs, start, none, 0, max);
    assert(greedy(glyphs, wrapped(glyphs, max), cuts, max));
}

/// The line that a glyph of a word is on, from line `i` on.
proof fn line_of(
    glyphs: Seq<Glyph>,
    lines: Seq<Seq<Glyph>>,
    cuts: Seq<Cut>,
    max: nat,
    at: int,
    i: int,
) -> (found: int)
    requires
        greedy(glyphs, lines, cuts, max),
        0 <= at < glyphs.len(),
        !glyphs[at].space,
        0 <= i < cuts.len(),
        cuts[i].start <= at,
    ensures
        0 <= found < cuts.len(),
        cuts[found].start <= at < cuts[found].end,
    decreases cuts.len() - i,
{
    if at < cuts[i].end {
        i
    } else {
        assert(i < cuts.len() - 1);
        assert(break_at(glyphs, cuts, i, max));
        line_of(glyphs, lines, cuts, max, at, i + 1)
    }
}

/// A word that fits is never split: a line holds all of it.
pub proof fn a_word_that_fits_is_not_split(
    glyphs: Seq<Glyph>,
    lines: Seq<Seq<Glyph>>,
    cuts: Seq<Cut>,
    max: nat,
    a: int,
    b: int,
)
    requires
        greedy(glyphs, lines, cuts, max),
        is_word(glyphs, a, b),
        cells(glyphs, a, b) <= max,
    ensures
        exists|i: int|
            0 <= i < cuts.len() && (#[trigger] cuts[i]).start <= a && b <= cuts[i].end,
{
    assert(!glyphs[a].space);
    let i = line_of(glyphs, lines, cuts, max, a, 0);
    if cuts[i].end < b {
        assert(i < cuts.len() - 1);
        assert(break_at(glyphs, cuts, i, max));
        let at = cuts[i].end;
        let next = cuts[i + 1].start;
        assert(!glyphs[at].space);
        assert(next == at);
        assert(!glyphs[at - 1].space);
        if word_overflows(glyphs, cuts[i], next, max) {
            let end = choose|end: int| #[trigger]
                is_word(glyphs, next, end) && cells(glyphs, cuts[i].start, end) > max;
            assert(is_word(glyphs, next, end));
        } else {
            let (c, d) = choose|c: int, d: int| #[trigger]
                is_word(glyphs, c, d) && c <= cuts[i].start && c < at < d && cells(glyphs, c, d)
                    > max;
            one_word_at(glyphs, a, b, c, d, at);
        }
    }
}

/// Only one word holds a position.
proof fn one_word_at(glyphs: Seq<Glyph>, a: int, b: int, c: int, d: int, at: int)
    requires
        is_word(glyphs, a, b),
        is_word(glyphs, c, d),
        a <= at < b,
        c <= at < d,
    ensures
        a == c,
        b == d,
{
    if a < c {
        assert(!glyphs[c - 1].space);
    }
    if c < a {
        assert(!glyphs[a - 1].space);
    }
    if b < d {
        assert(!glyphs[b].space);
    }
    if d < b {
        assert(!glyphs[d].space);
    }
}

} // verus!
