//! What word wrap makes of a styled text: where its lines come from and why
//! they end, in terms of the characters, their styles and the width alone.

use crate::cells::{cell_width, white_space};
use crate::snapshot::{SpanStyle, SpanView};
use crate::wrap::{
    all_glyphs, glyph, merged, split_lines, styled, total_width, wrapped, wrapped_all,
    wrapped_spans, Glyph,
};
use crate::wrap_again_laws::{all_space, wrapped_lines_are_tight};
use crate::wrap_break_laws::{
    a_break_comes_where_the_line_overflows, break_at, cells, glyph_overflows, greedy, is_word,
    word_overflows, Cut,
};
use crate::wrap_laws::{each_wrapped_glyph_keeps_its_style, styled_chars};
use vstd::prelude::*;

verus! {

/// The cells of a character; one without a width of its own has none.
pub open spec fn char_cells(ch: char) -> nat {
    if cell_width(ch) is Some {
        cell_width(ch)->Some_0 as nat
    } else {
        0
    }
}

/// The cells of the characters from `a` up to `b`.
pub open spec fn text_cells(text: Seq<(char, SpanStyle)>, a: int, b: int) -> nat
    decreases b - a,
{
    if a < b {
        text_cells(text, a, b - 1) + char_cells(text[b - 1].0)
    } else {
        0
    }
}

/// The characters from `a` up to `b` are a word: no whitespace among them, and
/// nothing but whitespace next to them.
pub open spec fn text_word(text: Seq<(char, SpanStyle)>, a: int, b: int) -> bool {
    &&& 0 <= a < b <= text.len()
    &&& forall|k: int| a <= k < b ==> !white_space((#[trigger] text[k]).0)
    &&& a == 0 || white_space(text[a - 1].0)
    &&& b == text.len() || white_space(text[b].0)
}

/// A blank is whitespace that does not end a line.
pub open spec fn is_blank(item: (char, SpanStyle)) -> bool {
    white_space(item.0) && item.0 != '\n'
}

/// From the start of its line of the text up to `at` there are blanks only.
pub open spec fn leads(text: Seq<(char, SpanStyle)>, from: int, at: int) -> bool {
    &&& 0 <= from <= at < text.len()
    &&& from == 0 || text[from - 1].0 == '\n'
    &&& forall|k: int| from <= k <= at ==> is_blank(#[trigger] text[k])
}

/// From `at` up to the end of its line of the text there are blanks only.
pub open spec fn trails(text: Seq<(char, SpanStyle)>, at: int, to: int) -> bool {
    &&& 0 <= at < to <= text.len()
    &&& to == text.len() || text[to].0 == '\n'
    &&& forall|k: int| at <= k < to ==> is_blank(#[trigger] text[k])
}

/// The line ends where the text has a line feed, and the next one starts behind
/// it.
pub open spec fn hard_break(text: Seq<(char, SpanStyle)>, line: Cut, next: int) -> bool {
    &&& line.end < text.len()
    &&& text[line.end].0 == '\n'
    &&& next == line.end + 1
}

/// The line ends because it cannot take the word that starts at `next` within
/// the width. The blanks between it and the line's last word are dropped;
/// blanks at the start of a line of the text are not.
pub open spec fn word_break(text: Seq<(char, SpanStyle)>, line: Cut, next: int, max: nat) -> bool {
    &&& exists|b: int| #[trigger] text_word(text, next, b) && text_cells(text, line.start, b) > max
    &&& line.end < next ==> !white_space(text[line.end - 1].0)
    &&& line.end == next ==> exists|from: int| #[trigger] leads(text, from, next - 1)
}

/// The line ends because it cannot take the character at `next` within the
/// width, inside a word too wide for any line, which has the line for itself,
/// or among the blanks at the start or the end of a line of the text.
pub open spec fn char_break(text: Seq<(char, SpanStyle)>, line: Cut, next: int, max: nat) -> bool {
    &&& line.end == next
    &&& text_cells(text, line.start, next) > 0
    &&& text_cells(text, line.start, next + 1) > max
    &&& if white_space(text[next].0) {
        (exists|from: int| #[trigger] leads(text, from, next)) || exists|to: int| #[trigger]
            trails(text, next, to)
    } else {
        exists|a: int, b: int| #[trigger]
            text_word(text, a, b) && a <= line.start && a < next < b && text_cells(text, a, b) > max
    }
}

/// The line ends because it cannot take what follows within the width, and
/// nothing but blanks is dropped before the next line.
pub open spec fn soft_break(text: Seq<(char, SpanStyle)>, line: Cut, next: int, max: nat) -> bool {
    &&& line.start < line.end <= next < text.len()
    &&& forall|k: int| line.end <= k < next ==> is_blank(#[trigger] text[k])
    &&& word_break(text, line, next, max) || char_break(text, line, next, max)
}

/// Why line `i` ends.
pub open spec fn ends_rightly(
    text: Seq<(char, SpanStyle)>,
    cuts: Seq<Cut>,
    i: int,
    max: nat,
) -> bool {
    hard_break(text, cuts[i], cuts[i + 1].start) || soft_break(
        text,
        cuts[i],
        cuts[i + 1].start,
        max,
    )
}

/// How many characters the spans hold.
pub open spec fn length(spans: Seq<SpanView>) -> nat {
    styled_chars(spans).len()
}

/// A span of the source ends, and another starts, at `p`.
pub open spec fn is_seam(source: Seq<SpanView>, p: int) -> bool {
    exists|m: int| 0 <= m <= source.len() && p == #[trigger] length(source.take(m))
}

/// A span of the line starts at its character `p`.
pub open spec fn is_joint(line: Seq<SpanView>, p: int) -> bool {
    exists|j: int| 0 < j < line.len() && p == #[trigger] length(line.take(j))
}

/// The spans of the line are those of the source, as far as the line has
/// anything of them: none is empty, and one ends where a span of the source
/// ends and nowhere else.
pub open spec fn keeps_spans(source: Seq<SpanView>, line: Seq<SpanView>, cut: Cut) -> bool {
    &&& forall|j: int| 0 <= j < line.len() ==> (#[trigger] line[j]).text.len() > 0
    &&& forall|p: int|
        0 < p < cut.end - cut.start ==> (#[trigger] is_joint(line, p) <==> is_seam(
            source,
            cut.start + p,
        ))
}

/// The line is cut from the text of the source, character for character with
/// its style and span for span, inside one line of the text.
pub open spec fn is_cut(source: Seq<SpanView>, line: Seq<SpanView>, cut: Cut) -> bool {
    let text = styled_chars(source);
    &&& 0 <= cut.start <= cut.end <= text.len()
    &&& styled_chars(line) == text.subrange(cut.start, cut.end)
    &&& forall|k: int| cut.start <= k < cut.end ==> (#[trigger] text[k]).0 != '\n'
    &&& keeps_spans(source, line, cut)
}

/// The line fits the width, or all its cells are those of one last character
/// that is wider than any line.
pub open spec fn line_fits(text: Seq<(char, SpanStyle)>, cut: Cut, max: nat) -> bool {
    ||| text_cells(text, cut.start, cut.end) <= max
    ||| cut.start < cut.end && text_cells(text, cut.start, cut.end - 1) == 0 && char_cells(
        text[cut.end - 1].0,
    ) > max
}

/// The lines are cut from the text of the source one after another, fit the
/// width, and end where they have to.
pub open spec fn laid_greedily(
    source: Seq<SpanView>,
    lines: Seq<Seq<SpanView>>,
    cuts: Seq<Cut>,
    max: nat,
) -> bool {
    let text = styled_chars(source);
    &&& cuts.len() == lines.len() >= 1
    &&& forall|i: int|
        0 <= i < cuts.len() ==> is_cut(source, lines[i], #[trigger] cuts[i]) && line_fits(
            text,
            cuts[i],
            max,
        )
    &&& forall|i: int| 0 <= i < cuts.len() - 1 ==> #[trigger] ends_rightly(text, cuts, i, max)
}

/// The glyphs are those of the text from `off` on.
spec fn glyphs_of(
    text: Seq<(char, SpanStyle)>,
    off: int,
    glyphs: Seq<Glyph>,
    source: Seq<SpanView>,
) -> bool {
    &&& 0 <= off <= off + glyphs.len() <= text.len()
    &&& forall|k: int|
        0 <= k < glyphs.len() ==> {
            let next = #[trigger] glyphs[k];
            &&& text[off + k] == (next.ch, source[next.span as int].style)
            &&& next.width == char_cells(next.ch)
            &&& next.space == white_space(next.ch)
        }
}

proof fn cells_are_cells(
    text: Seq<(char, SpanStyle)>,
    off: int,
    glyphs: Seq<Glyph>,
    source: Seq<SpanView>,
    a: int,
    b: int,
)
    requires
        glyphs_of(text, off, glyphs, source),
        0 <= a <= b <= glyphs.len(),
    ensures
        cells(glyphs, a, b) == text_cells(text, off + a, off + b),
    decreases b - a,
{
    let part = glyphs.subrange(a, b);
    if a < b {
        cells_are_cells(text, off, glyphs, source, a, b - 1);
        assert(part.drop_last() =~= glyphs.subrange(a, b - 1));
        assert(part.last() == glyphs[b - 1]);
        assert(text[off + (b - 1)].0 == glyphs[b - 1].ch);
        assert(off + b - 1 == off + (b - 1));
    } else {
        assert(part =~= Seq::<Glyph>::empty());
    }
}

/// The glyphs are one whole line of the text.
spec fn one_paragraph(
    text: Seq<(char, SpanStyle)>,
    off: int,
    glyphs: Seq<Glyph>,
    source: Seq<SpanView>,
) -> bool {
    &&& glyphs_of(text, off, glyphs, source)
    &&& forall|k: int| 0 <= k < glyphs.len() ==> (#[trigger] glyphs[k]).ch != '\n'
    &&& off == 0 || text[off - 1].0 == '\n'
    &&& off + glyphs.len() == text.len() || text[off + glyphs.len()].0 == '\n'
}

proof fn words_are_words(
    text: Seq<(char, SpanStyle)>,
    off: int,
    glyphs: Seq<Glyph>,
    source: Seq<SpanView>,
    a: int,
    b: int,
)
    requires
        one_paragraph(text, off, glyphs, source),
        is_word(glyphs, a, b),
    ensures
        text_word(text, off + a, off + b),
{
    assert forall|k: int| off + a <= k < off + b implies !white_space((#[trigger] text[k]).0) by {
        assert(!glyphs[k - off].space);
    }
    if a > 0 {
        assert(glyphs[a - 1].space);
        assert(text[off + (a - 1)].0 == glyphs[a - 1].ch);
    }
    if b < glyphs.len() {
        assert(glyphs[b].space);
        assert(text[off + b].0 == glyphs[b].ch);
    }
}

proof fn blanks_lead(
    text: Seq<(char, SpanStyle)>,
    off: int,
    glyphs: Seq<Glyph>,
    source: Seq<SpanView>,
    n: int,
)
    requires
        one_paragraph(text, off, glyphs, source),
        0 < n <= glyphs.len(),
        all_space(glyphs.take(n)),
    ensures
        leads(text, off, off + n - 1),
{
    assert forall|k: int| off <= k <= off + n - 1 implies is_blank(#[trigger] text[k]) by {
        assert(glyphs.take(n)[k - off] == glyphs[k - off]);
        assert(glyphs[k - off].ch != '\n');
    }
}

proof fn blanks_trail(
    text: Seq<(char, SpanStyle)>,
    off: int,
    glyphs: Seq<Glyph>,
    source: Seq<SpanView>,
    n: int,
)
    requires
        one_paragraph(text, off, glyphs, source),
        0 <= n < glyphs.len(),
        all_space(glyphs.skip(n)),
    ensures
        trails(text, off + n, off + glyphs.len()),
{
    assert forall|k: int| off + n <= k < off + glyphs.len() implies is_blank(
        #[trigger] text[k],
    ) by {
        assert(glyphs.skip(n)[k - off - n] == glyphs[k - off]);
        assert(glyphs[k - off].ch != '\n');
    }
}

spec fn moved(cuts: Seq<Cut>, off: int) -> Seq<Cut> {
    Seq::new(cuts.len(), |i: int| Cut { start: cuts[i].start + off, end: cuts[i].end + off })
}

/// A break of a paragraph is one of the text.
proof fn breaks_are_breaks(
    text: Seq<(char, SpanStyle)>,
    off: int,
    glyphs: Seq<Glyph>,
    source: Seq<SpanView>,
    cuts: Seq<Cut>,
    i: int,
    max: nat,
)
    requires
        one_paragraph(text, off, glyphs, source),
        0 <= i < cuts.len() - 1,
        0 <= cuts[i].start,
        cuts[i + 1].start <= glyphs.len(),
        break_at(glyphs, cuts, i, max),
    ensures
        ends_rightly(text, moved(cuts, off), i, max),
{
    let line = cuts[i];
    let next = cuts[i + 1].start;
    let there = Cut { start: line.start + off, end: line.end + off };
    assert(moved(cuts, off)[i] == there);
    assert forall|k: int| there.end <= k < next + off implies is_blank(#[trigger] text[k]) by {
        assert(glyphs[k - off].space);
        assert(glyphs[k - off].ch != '\n');
    }
    if line.end < next {
        assert(!glyphs[line.end - 1].space);
        assert(text[off + (line.end - 1)].0 == glyphs[line.end - 1].ch);
    }
    if word_overflows(glyphs, line, next, max) {
        let b = choose|b: int| #[trigger]
            is_word(glyphs, next, b) && cells(glyphs, line.start, b) > max;
        words_are_words(text, off, glyphs, source, next, b);
        cells_are_cells(text, off, glyphs, source, line.start, b);
        assert(text_word(text, next + off, b + off));
        if line.end == next {
            blanks_lead(text, off, glyphs, source, next);
            assert(leads(text, off, next + off - 1));
        }
        assert(word_break(text, there, next + off, max));
    } else {
        assert(glyph_overflows(glyphs, line, next, max));
        cells_are_cells(text, off, glyphs, source, line.start, next);
        cells_are_cells(text, off, glyphs, source, line.start, next + 1);
        assert(text[off + next].0 == glyphs[next].ch);
        if glyphs[next].space {
            if all_space(glyphs.take(next + 1)) {
                blanks_lead(text, off, glyphs, source, next + 1);
                assert(leads(text, off, next + off));
            } else {
                blanks_trail(text, off, glyphs, source, next);
                assert(trails(text, next + off, off + glyphs.len()));
            }
        } else {
            let (a, b) = choose|a: int, b: int| #[trigger]
                is_word(glyphs, a, b) && a <= line.start && a < next < b && cells(glyphs, a, b)
                    > max;
            words_are_words(text, off, glyphs, source, a, b);
            cells_are_cells(text, off, glyphs, source, a, b);
            assert(text_word(text, a + off, b + off));
        }
        assert(char_break(text, there, next + off, max));
    }
}

/// A glyph comes from the span that holds its position.
proof fn spans_hold_their_glyphs(source: Seq<SpanView>, k: int, m: int)
    requires
        source.len() <= usize::MAX,
        0 <= k < all_glyphs(source).len(),
        0 <= m < source.len(),
    ensures
        all_glyphs(source)[k].span == m <==> length(source.take(m)) <= k < length(
            source.take(m + 1),
        ),
    decreases source.len(),
{
    let short = source.drop_last();
    let last = source.len() - 1;
    glyphs_are_the_text(source);
    glyphs_are_the_text(short);
    assert(source.take(last) =~= short);
    assert(source.take(last + 1) =~= source);
    let before = all_glyphs(short);
    if k < before.len() {
        assert(all_glyphs(source)[k] == before[k]);
        assert(before[k].span < short.len());
        if m < last {
            spans_hold_their_glyphs(short, k, m);
            assert(short.take(m) =~= source.take(m));
            assert(short.take(m + 1) =~= source.take(m + 1));
        }
    } else {
        assert(all_glyphs(source)[k].span == last);
        if m < last {
            lengths_grow(source, m + 1, last);
        }
    }
}

proof fn lengths_grow(source: Seq<SpanView>, a: int, b: int)
    requires
        0 <= a <= b <= source.len(),
    ensures
        length(source.take(a)) <= length(source.take(b)),
    decreases b - a,
{
    if a < b {
        lengths_grow(source, a, b - 1);
        assert(source.take(b).drop_last() =~= source.take(b - 1));
    }
}

/// Neighbours come from two spans exactly where one of them ends.
proof fn seams_are_where_spans_change(source: Seq<SpanView>, p: int)
    requires
        source.len() <= usize::MAX,
        0 < p < all_glyphs(source).len(),
    ensures
        is_seam(source, p) <==> all_glyphs(source)[p - 1].span != all_glyphs(source)[p].span,
{
    glyphs_are_the_text(source);
    let here = all_glyphs(source)[p].span as int;
    let there = all_glyphs(source)[p - 1].span as int;
    spans_hold_their_glyphs(source, p, here);
    spans_hold_their_glyphs(source, p - 1, here);
    spans_hold_their_glyphs(source, p - 1, there);
    spans_hold_their_glyphs(source, p, there);
    if here != there {
        assert(p == length(source.take(here)));
    }
    if is_seam(source, p) {
        let m = choose|m: int| 0 <= m <= source.len() && p == #[trigger] length(source.take(m));
        if here == there {
            if m <= here {
                lengths_grow(source, m, here);
            } else {
                lengths_grow(source, here + 1, m);
            }
        }
    }
}

/// The spans of a line start where its glyphs' span changes.
proof fn joints_are_where_spans_change(line: Seq<Glyph>, source: Seq<SpanView>)
    ensures
        ({
            let made = merged(line, source);
            &&& length(made) == line.len()
            &&& line.len() > 0 ==> made.len() > 0
            &&& forall|j: int| 0 <= j < made.len() ==> (#[trigger] made[j]).text.len() > 0
            &&& forall|p: int|
                0 < p < line.len() ==> (#[trigger] is_joint(made, p) <==> line[p - 1].span
                    != line[p].span)
        }),
    decreases line.len(),
{
    each_wrapped_glyph_keeps_its_style(line, source);
    if line.len() > 0 {
        let short = line.drop_last();
        joints_are_where_spans_change(short, source);
        each_wrapped_glyph_keeps_its_style(short, source);
        let before = merged(short, source);
        let made = merged(line, source);
        let end = line.len() - 1;
        let joined = line.len() > 1 && line[line.len() - 2].span == line.last().span
            && before.len() > 0;
        let kept = if joined {
            before.len() - 1
        } else {
            before.len() as int
        };
        assert(forall|j: int| 0 <= j <= kept ==> #[trigger] made.take(j) =~= before.take(j));
        if !joined {
            assert(made.take(kept) =~= before);
        }
        assert forall|p: int| 0 < p < line.len() implies (#[trigger] is_joint(made, p)
            <==> line[p - 1].span != line[p].span) by {
            if p < end {
                assert(is_joint(before, p) <==> short[p - 1].span != short[p].span);
                if is_joint(before, p) {
                    let j = choose|j: int|
                        0 < j < before.len() && p == #[trigger] length(before.take(j));
                    assert(made.take(j) =~= before.take(j));
                    assert(p == length(made.take(j)));
                }
                if is_joint(made, p) {
                    let j = choose|j: int|
                        0 < j < made.len() && p == #[trigger] length(made.take(j));
                    assert(made.take(j) =~= before.take(j));
                    if j == before.len() {
                        assert(before.take(j) =~= before);
                    } else {
                        assert(p == length(before.take(j)));
                    }
                }
            } else {
                if !joined {
                    if before.len() > 0 {
                        assert(made.take(kept) =~= before);
                        assert(p == length(made.take(kept)));
                    }
                } else if is_joint(made, p) {
                    let j = choose|j: int|
                        0 < j < made.len() && p == #[trigger] length(made.take(j));
                    assert(made.take(j) =~= before.take(j));
                    lengths_grow(before, j, kept);
                    assert(before.take(kept + 1) =~= before);
                    assert(before.take(kept + 1).drop_last() =~= before.take(kept));
                    assert(before[kept].text.len() > 0);
                }
            }
        }
    }
}

proof fn spans_are_kept(source: Seq<SpanView>, line: Seq<Glyph>, cut: Cut)
    requires
        source.len() <= usize::MAX,
        0 <= cut.start <= cut.end <= all_glyphs(source).len(),
        line.len() == cut.end - cut.start,
        forall|k: int|
            0 <= k < line.len() ==> #[trigger] line[k] == all_glyphs(source)[cut.start + k],
    ensures
        keeps_spans(source, merged(line, source), cut),
{
    joints_are_where_spans_change(line, source);
    assert forall|p: int| 0 < p < cut.end - cut.start implies (#[trigger] is_joint(
        merged(line, source),
        p,
    ) <==> is_seam(source, cut.start + p)) by {
        seams_are_where_spans_change(source, cut.start + p);
        assert(line[p] == all_glyphs(source)[cut.start + p]);
        assert(line[p - 1] == all_glyphs(source)[cut.start + (p - 1)]);
    }
}

/// A wrapped paragraph is laid greedily.
proof fn a_paragraph_is_laid(
    text: Seq<(char, SpanStyle)>,
    off: int,
    glyphs: Seq<Glyph>,
    source: Seq<SpanView>,
    max: nat,
) -> (cuts: Seq<Cut>)
    requires
        text == styled_chars(source),
        source.len() <= usize::MAX,
        one_paragraph(text, off, glyphs, source),
        forall|k: int|
            0 <= k < glyphs.len() ==> #[trigger] glyphs[k] == all_glyphs(source)[off + k],
    ensures
        laid_greedily(source, styled(wrapped(glyphs, max), source), cuts, max),
        cuts[0].start == off,
        cuts.last().end == off + glyphs.len(),
{
    a_break_comes_where_the_line_overflows(glyphs, max);
    let made = wrapped(glyphs, max);
    let inner = choose|inner: Seq<Cut>| #[trigger] greedy(glyphs, made, inner, max);
    let cuts = moved(inner, off);
    let lines = styled(made, source);
    assert forall|i: int| 0 <= i < cuts.len() implies is_cut(
        source,
        lines[i],
        #[trigger] cuts[i],
    ) && line_fits(text, cuts[i], max) by {
        let cut = inner[i];
        assert(0 <= cut.start <= cut.end <= glyphs.len());
        let line = made[i];
        assert(line == glyphs.subrange(cut.start, cut.end));
        each_wrapped_glyph_keeps_its_style(line, source);
        assert forall|k: int| 0 <= k < line.len() implies (#[trigger] line[k]).ch
            == text[cuts[i].start + k].0 && source[line[k].span as int].style
            == text[cuts[i].start + k].1 by {
            assert(line[k] == glyphs[cut.start + k]);
            assert(text[off + (cut.start + k)] == (
                glyphs[cut.start + k].ch,
                source[glyphs[cut.start + k].span as int].style,
            ));
        }
        assert(styled_chars(lines[i]) =~= text.subrange(cuts[i].start, cuts[i].end));
        assert forall|k: int| cuts[i].start <= k < cuts[i].end implies (
        #[trigger] text[k]).0 != '\n' by {
            assert(glyphs[k - off].ch != '\n');
        }
        assert forall|k: int| 0 <= k < line.len() implies #[trigger] line[k] == all_glyphs(
            source,
        )[cuts[i].start + k] by {
            assert(line[k] == glyphs[cut.start + k]);
            assert(off + (cut.start + k) == cuts[i].start + k);
        }
        glyphs_are_the_text(source);
        spans_are_kept(source, line, cuts[i]);
        wrapped_lines_are_tight(glyphs, max, i);
        cells_are_cells(text, off, glyphs, source, cut.start, cut.end);
        if total_width(line) > max {
            cells_are_cells(text, off, glyphs, source, cut.start, cut.end - 1);
            assert(line.drop_last() =~= glyphs.subrange(cut.start, cut.end - 1));
            assert(line.last() == glyphs[cut.end - 1]);
            assert(text[off + (cut.end - 1)].0 == glyphs[cut.end - 1].ch);
        }
    }
    assert forall|i: int| 0 <= i < cuts.len() - 1 implies #[trigger] ends_rightly(
        text,
        cuts,
        i,
        max,
    ) by {
        assert(break_at(glyphs, inner, i, max));
        assert(0 <= inner[i].start);
        assert(inner[i + 1].start <= inner[i + 1].end);
        breaks_are_breaks(text, off, glyphs, source, inner, i, max);
    }
    assert(inner[0].start == 0);
    cuts
}

/// Two runs of lines with a line feed between them.
proof fn laid_one_after_the_other(
    source: Seq<SpanView>,
    lines: Seq<Seq<SpanView>>,
    cuts: Seq<Cut>,
    more: Seq<Seq<SpanView>>,
    next: Seq<Cut>,
    max: nat,
)
    requires
        laid_greedily(source, lines, cuts, max),
        laid_greedily(source, more, next, max),
        hard_break(styled_chars(source), cuts.last(), next[0].start),
    ensures
        laid_greedily(source, lines + more, cuts + next, max),
{
    let text = styled_chars(source);
    let all = cuts + next;
    assert forall|i: int| 0 <= i < all.len() implies is_cut(
        source,
        (lines + more)[i],
        #[trigger] all[i],
    ) && line_fits(text, all[i], max) by {
        if i < cuts.len() {
            assert(all[i] == cuts[i]);
        } else {
            assert(all[i] == next[i - cuts.len()]);
        }
    }
    assert forall|i: int| 0 <= i < all.len() - 1 implies #[trigger] ends_rightly(
        text,
        all,
        i,
        max,
    ) by {
        if i < cuts.len() - 1 {
            assert(ends_rightly(text, cuts, i, max));
            assert(all[i + 1] == cuts[i + 1]);
        } else if i == cuts.len() - 1 {
            assert(all[i] == cuts.last());
            assert(all[i + 1] == next[0]);
        } else {
            let j = i - cuts.len();
            assert(ends_rightly(text, next, j, max));
            assert(all[i + 1] == next[j + 1]);
        }
    }
}

/// Where the piece at `j` starts when a line feed stands between neighbours.
spec fn piece_start(pieces: Seq<Seq<Glyph>>, j: int) -> int
    decreases j,
{
    if j <= 0 {
        0
    } else {
        piece_start(pieces, j - 1) + pieces[j - 1].len() + 1
    }
}

proof fn piece_start_is_local(a: Seq<Seq<Glyph>>, b: Seq<Seq<Glyph>>, j: int)
    requires
        forall|k: int| 0 <= k < j ==> (#[trigger] a[k]).len() == b[k].len(),
    ensures
        piece_start(a, j) == piece_start(b, j),
        piece_start(a, j) >= 0,
    decreases j,
{
    if j > 0 {
        piece_start_is_local(a, b, j - 1);
        assert(a[j - 1].len() == b[j - 1].len());
    }
}

/// The pieces are the glyphs, in place, with line feeds between them.
proof fn pieces_are_in_place(glyphs: Seq<Glyph>)
    ensures
        ({
            let pieces = split_lines(glyphs);
            &&& pieces.len() >= 1
            &&& forall|j: int, k: int|
                0 <= j < pieces.len() && 0 <= k < pieces[j].len() ==> (#[trigger] pieces[j][k])
                    == glyphs[piece_start(pieces, j) + k] && pieces[j][k].ch != '\n'
            &&& forall|j: int|
                0 <= j < pieces.len() ==> 0 <= #[trigger] piece_start(pieces, j) && piece_start(
                    pieces,
                    j,
                ) + pieces[j].len() <= glyphs.len()
            &&& forall|j: int|
                0 < j < pieces.len() ==> glyphs[#[trigger] piece_start(pieces, j) - 1].ch == '\n'
            &&& piece_start(pieces, pieces.len() - 1) + pieces.last().len() == glyphs.len()
        }),
    decreases glyphs.len(),
{
    let pieces = split_lines(glyphs);
    if glyphs.len() == 0 {
        assert(pieces.len() == 1);
        assert(pieces[0].len() == 0);
    } else {
        let short = glyphs.drop_last();
        pieces_are_in_place(short);
        let before = split_lines(short);
        let last = before.len() - 1;
        assert forall|j: int| 0 <= j <= last implies piece_start(pieces, j) == #[trigger] piece_start(
            before,
            j,
        ) by {
            assert forall|k: int| 0 <= k < j implies (#[trigger] pieces[k]).len()
                == before[k].len() by {}
            piece_start_is_local(pieces, before, j);
        }
        if glyphs.last().ch == '\n' {
            assert(pieces[last] == before[last]);
            assert(piece_start(pieces, last + 1) == piece_start(pieces, last) + before[last].len()
                + 1);
            assert forall|j: int, k: int|
                0 <= j < pieces.len() && 0 <= k < pieces[j].len() implies (
            #[trigger] pieces[j][k]) == glyphs[piece_start(pieces, j) + k]
                && pieces[j][k].ch != '\n' by {
                assert(before[j][k] == short[piece_start(before, j) + k]);
                assert(piece_start(pieces, j) == piece_start(before, j));
                assert(piece_start(before, j) + before[j].len() <= short.len());
            }
            assert forall|j: int| 0 <= j < pieces.len() implies 0 <= #[trigger] piece_start(
                pieces,
                j,
            ) && piece_start(pieces, j) + pieces[j].len() <= glyphs.len() by {
                if j <= last {
                    assert(piece_start(pieces, j) == piece_start(before, j));
                }
            }
            assert forall|j: int| 0 < j < pieces.len() implies glyphs[#[trigger] piece_start(
                pieces,
                j,
            ) - 1].ch == '\n' by {
                if j <= last {
                    assert(piece_start(pieces, j) == piece_start(before, j));
                    assert(short[piece_start(before, j) - 1].ch == '\n');
                    assert(piece_start(before, j) + before[j].len() <= short.len());
                    piece_start_is_local(before, before, j - 1);
                } else {
                    assert(piece_start(pieces, last) == piece_start(before, last));
                    assert(piece_start(pieces, j) == glyphs.len());
                }
            }
        } else {
            assert(pieces.len() == before.len());
            assert forall|j: int, k: int|
                0 <= j < pieces.len() && 0 <= k < pieces[j].len() implies (
            #[trigger] pieces[j][k]) == glyphs[piece_start(pieces, j) + k]
                && pieces[j][k].ch != '\n' by {
                assert(piece_start(pieces, j) == piece_start(before, j));
                assert(piece_start(before, j) + before[j].len() <= short.len());
                if j < last || k < before[last].len() {
                    assert(pieces[j][k] == before[j][k]);
                    assert(before[j][k] == short[piece_start(before, j) + k]);
                }
            }
            assert forall|j: int| 0 <= j < pieces.len() implies 0 <= #[trigger] piece_start(
                pieces,
                j,
            ) && piece_start(pieces, j) + pieces[j].len() <= glyphs.len() by {
                assert(piece_start(pieces, j) == piece_start(before, j));
            }
            assert forall|j: int| 0 < j < pieces.len() implies glyphs[#[trigger] piece_start(
                pieces,
                j,
            ) - 1].ch == '\n' by {
                assert(piece_start(pieces, j) == piece_start(before, j));
                assert(short[piece_start(before, j) - 1].ch == '\n');
                assert(piece_start(before, j) + before[j].len() <= short.len());
                piece_start_is_local(before, before, j - 1);
            }
            assert(piece_start(pieces, last) == piece_start(before, last));
        }
    }
}

/// The glyphs of the spans are the text's characters, each with the span it
/// came from.
proof fn glyphs_are_the_text(spans: Seq<SpanView>)
    requires
        spans.len() <= usize::MAX,
    ensures
        all_glyphs(spans).len() == styled_chars(spans).len(),
        forall|k: int|
            0 <= k < all_glyphs(spans).len() ==> {
                let next = #[trigger] all_glyphs(spans)[k];
                &&& next.span < spans.len()
                &&& styled_chars(spans)[k] == (next.ch, spans[next.span as int].style)
                &&& next == glyph(next.ch, next.span)
            },
    decreases spans.len(),
{
    if spans.len() > 0 {
        let short = spans.drop_last();
        glyphs_are_the_text(short);
        let before = all_glyphs(short);
        let all = all_glyphs(spans);
        assert forall|k: int| 0 <= k < all.len() implies {
            let next = #[trigger] all[k];
            &&& next.span < spans.len()
            &&& styled_chars(spans)[k] == (next.ch, spans[next.span as int].style)
            &&& next == glyph(next.ch, next.span)
        } by {
            if k < before.len() {
                assert(all[k] == before[k]);
                assert(short[before[k].span as int] == spans[before[k].span as int]);
            }
        }
    }
}

proof fn some_paragraphs_are_laid(
    text: Seq<(char, SpanStyle)>,
    pieces: Seq<Seq<Glyph>>,
    source: Seq<SpanView>,
    m: int,
    max: nat,
) -> (cuts: Seq<Cut>)
    requires
        text == styled_chars(source),
        source.len() <= usize::MAX,
        0 < m <= pieces.len(),
        forall|j: int, k: int|
            0 <= j < pieces.len() && 0 <= k < pieces[j].len() ==> #[trigger] pieces[j][k]
                == all_glyphs(source)[piece_start(pieces, j) + k],
        forall|j: int|
            0 <= j < pieces.len() ==> one_paragraph(
                text,
                #[trigger] piece_start(pieces, j),
                pieces[j],
                source,
            ),
    ensures
        laid_greedily(source, styled(wrapped_all(pieces.take(m), max), source), cuts, max),
        cuts[0].start == 0,
        cuts.last().end == piece_start(pieces, m - 1) + pieces[m - 1].len(),
    decreases m,
{
    let off = piece_start(pieces, m - 1);
    assert(one_paragraph(text, off, pieces[m - 1], source));
    assert forall|k: int| 0 <= k < pieces[m - 1].len() implies #[trigger] pieces[m - 1][k]
        == all_glyphs(source)[off + k] by {}
    let next = a_paragraph_is_laid(text, off, pieces[m - 1], source, max);
    let done = pieces.take(m - 1);
    assert(pieces.take(m).drop_last() =~= done);
    assert(pieces.take(m).last() == pieces[m - 1]);
    let before = wrapped_all(done, max);
    let more = wrapped(pieces[m - 1], max);
    assert(styled(before + more, source) =~= styled(before, source) + styled(more, source));
    if m == 1 {
        assert(before =~= seq![]);
        assert(before + more =~= more);
        next
    } else {
        let cuts = some_paragraphs_are_laid(text, pieces, source, m - 1, max);
        assert(one_paragraph(text, piece_start(pieces, m - 2), pieces[m - 2], source));
        laid_one_after_the_other(
            source,
            styled(before, source),
            cuts,
            styled(more, source),
            next,
            max,
        );
        assert((cuts + next)[0] == cuts[0]);
        assert((cuts + next).last() == next.last());
        cuts + next
    }
}

/// Word wrap is greedy at the width it was asked for. The lines are cut from
/// the text in order, from its first character to its last, each character
/// with its style and in a span of its own span; a line ends at a line feed, or
/// where it could not take the next word, or the next character of a word wider
/// than the width, within the width; no line is wider, save one whose one
/// visible character is.
pub proof fn wrapping_is_greedy(spans: Seq<SpanView>, max: nat)
    requires
        spans.len() <= usize::MAX,
    ensures
        exists|cuts: Seq<Cut>| #[trigger]
            laid_greedily(spans, wrapped_spans(spans, max), cuts, max)
                && cuts[0].start == 0 && cuts.last().end == styled_chars(spans).len(),
{
    let text = styled_chars(spans);
    let glyphs = all_glyphs(spans);
    let pieces = split_lines(glyphs);
    glyphs_are_the_text(spans);
    pieces_are_in_place(glyphs);
    assert forall|j: int| 0 <= j < pieces.len() implies one_paragraph(
        text,
        #[trigger] piece_start(pieces, j),
        pieces[j],
        spans,
    ) by {
        let off = piece_start(pieces, j);
        let piece = pieces[j];
        assert forall|k: int| 0 <= k < piece.len() implies {
            let next = #[trigger] piece[k];
            &&& text[off + k] == (next.ch, spans[next.span as int].style)
            &&& next.width == char_cells(next.ch)
            &&& next.space == white_space(next.ch)
        } by {
            assert(pieces[j][k] == glyphs[off + k]);
        }
        assert forall|k: int| 0 <= k < piece.len() implies (#[trigger] piece[k]).ch != '\n' by {
            assert(pieces[j][k].ch != '\n');
        }
        if j > 0 {
            assert(glyphs[off - 1].ch == '\n');
            piece_start_is_local(pieces, pieces, j - 1);
        }
        if j < pieces.len() - 1 {
            assert(piece_start(pieces, j + 1) == off + piece.len() + 1);
            assert(glyphs[piece_start(pieces, j + 1) - 1].ch == '\n');
            assert(piece_start(pieces, j + 1) + pieces[j + 1].len() <= glyphs.len());
        }
    }
    let n = pieces.len() as int;
    let cuts = some_paragraphs_are_laid(text, pieces, spans, n, max);
    assert(pieces.take(n) =~= pieces);
    assert(laid_greedily(spans, wrapped_spans(spans, max), cuts, max));
}

} // verus!
