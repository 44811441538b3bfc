//! What a drawn line shows, piece by piece: which source span it comes from,
//! which of its bytes it has, and which decorations lie over it.

use crate::compose::{
    composed, cut_pieces, line_bytes, line_bytes_grow, marks_fit, next_cut, next_cut_is_next,
    patched, pieces, touched, Face, Mark, SpanOut, SpinnerLine,
};
use crate::layout_laws::{cuts_fit_in_span, slice_has_bytes};
use crate::message::ByteRange;
use crate::place::{
    drawable, drawn, faces_fit, line_composed, marks_of, marks_of_fit, Decoration, Faces,
};
use crate::snapshot::{spans_text, SnapshotLine, SpanView};
use crate::style::style_patch;
use crate::text::{a_seam_is_a_boundary, byte_slice};
use ratatui::style::Style;
use vstd::prelude::*;
use vstd::utf8::{encode_utf8, is_char_boundary};

verus! {

/// A style with the decorations laid over it, in list order, that belong to
/// the line and cover its bytes from `a` up to `b`.
pub open spec fn overlaid(
    style: Style,
    decorations: Seq<Decoration>,
    styles: Seq<Style>,
    line: int,
    a: nat,
    b: nat,
) -> Style
    decreases decorations.len(),
{
    if decorations.len() == 0 {
        style
    } else {
        let under = overlaid(style, decorations.drop_last(), styles.drop_last(), line, a, b);
        let top = decorations.last();
        if top.line == line && top.bytes.start <= a && b <= top.bytes.end {
            style_patch(under, styles.last())
        } else {
            under
        }
    }
}

/// Where a drawn piece comes from: a span of the source, and the bytes of the
/// line from `start` up to `end`.
pub struct Origin {
    pub span: int,
    pub start: nat,
    pub end: nat,
}

/// How many bytes of the line come before span `k`.
pub open spec fn bytes_before(spans: Seq<SpanView>, k: int) -> nat
    decreases k,
{
    if k <= 0 {
        0
    } else {
        bytes_before(spans, k - 1) + encode_utf8(spans[k - 1].text).len()
    }
}

/// A spinner shows its frame, and no decoration of the line reaches into it.
pub open spec fn shows_spinner(
    spans: Seq<SpanView>,
    decorations: Seq<Decoration>,
    line: int,
    frame: SpanOut,
    out: SpanOut,
    at: Origin,
) -> bool {
    let from = bytes_before(spans, at.span);
    let to = bytes_before(spans, at.span + 1);
    &&& out == frame
    &&& at.start == from
    &&& at.end == to
    &&& forall|k: int|
        0 <= k < decorations.len() && (#[trigger] decorations[k]).line == line ==> to
            <= decorations[k].bytes.start || decorations[k].bytes.end <= from
}

/// A piece shows its bytes of the source span's text in the theme's style with
/// the decorations of its line that cover it laid over. No decoration of the
/// line begins or ends inside it, and it ends where its span or such a
/// decoration begins or ends.
#[verifier::opaque]
pub open spec fn shows_text(
    spans: Seq<SpanView>,
    decorations: Seq<Decoration>,
    styles: Seq<Style>,
    line: int,
    style: Style,
    out: SpanOut,
    at: Origin,
) -> bool {
    let from = bytes_before(spans, at.span);
    let to = bytes_before(spans, at.span + 1);
    &&& from <= at.start <= at.end <= to
    &&& encode_utf8(out.text) == encode_utf8(spans[at.span].text).subrange(
        at.start - from,
        at.end - from,
    )
    &&& from == to ==> out.style == style
    &&& from < to ==> {
        &&& at.start < at.end
        &&& out.style == overlaid(style, decorations, styles, line, at.start, at.end)
        &&& at.end == to || exists|k: int|
            0 <= k < decorations.len() && (#[trigger] decorations[k]).line == line && (
            decorations[k].bytes.start == at.end || decorations[k].bytes.end == at.end)
        &&& forall|k: int|
            0 <= k < decorations.len() && (#[trigger] decorations[k]).line == line ==> {
                ||| decorations[k].bytes.start <= at.start && at.end <= decorations[k].bytes.end
                ||| decorations[k].bytes.end <= at.start
                ||| at.end <= decorations[k].bytes.start
            }
    }
}

/// A drawn piece shows what it comes from.
#[verifier::opaque]
pub open spec fn shows(
    spans: Seq<SpanView>,
    faces: Seq<Face>,
    decorations: Seq<Decoration>,
    styles: Seq<Style>,
    line: int,
    out: SpanOut,
    at: Origin,
) -> bool {
    &&& 0 <= at.span < spans.len()
    &&& match faces[at.span] {
        Face::Spinner { style: _, span } => shows_spinner(
            spans,
            decorations,
            line,
            span@,
            out,
            at,
        ),
        Face::Styled(style) => shows_text(spans, decorations, styles, line, style, out, at),
    }
}

/// The next piece takes up where a piece ends: in the same span, or at the
/// start of the next one.
pub open spec fn follows(spans: Seq<SpanView>, at: Origin, next: Origin) -> bool {
    let to = bytes_before(spans, at.span + 1);
    &&& next.start == at.end
    &&& next.span == if at.end < to {
        at.span
    } else {
        at.span + 1
    }
}

/// The pieces are the first `k` spans of the line, from the first byte to the
/// last.
pub open spec fn tiles(spans: Seq<SpanView>, origins: Seq<Origin>, k: int) -> bool {
    &&& k == 0 <==> origins.len() == 0
    &&& k > 0 ==> {
        &&& origins[0].span == 0
        &&& origins[0].start == 0
        &&& origins.last().span == k - 1
        &&& origins.last().end == bytes_before(spans, k)
    }
    &&& forall|q: int|
        0 <= q < origins.len() - 1 ==> follows(spans, #[trigger] origins[q], origins[q + 1])
}

/// The spinners of a line: one for every piece that is one, in order, with the
/// style its spinner names.
#[verifier::opaque]
pub open spec fn spinners_of(
    faces: Seq<Face>,
    origins: Seq<Origin>,
    spinners: Seq<SpinnerLine>,
    line: int,
) -> bool {
    &&& forall|s: int|
        0 <= s < spinners.len() ==> {
            let spinner = #[trigger] spinners[s];
            &&& spinner.line == line
            &&& spinner.span < origins.len()
            &&& faces[origins[spinner.span as int].span] matches Face::Spinner { style, span: _ }
                && spinner.style == style
        }
    &&& forall|s: int, t: int|
        0 <= s < t < spinners.len() ==> (#[trigger] spinners[s]).span < (
        #[trigger] spinners[t]).span
    &&& forall|q: int|
        0 <= q < origins.len() && faces[(#[trigger] origins[q]).span] is Spinner ==> exists|s: int|
            0 <= s < spinners.len() && (#[trigger] spinners[s]).span == q
}

/// A drawn line shows its source.
pub open spec fn line_shows(
    spans: Seq<SpanView>,
    faces: Seq<Face>,
    decorations: Seq<Decoration>,
    styles: Seq<Style>,
    line: int,
    out: Seq<SpanOut>,
    origins: Seq<Origin>,
) -> bool {
    &&& origins.len() == out.len()
    &&& tiles(spans, origins, spans.len() as int)
    &&& forall|q: int|
        0 <= q < out.len() ==> shows(
            spans,
            faces,
            decorations,
            styles,
            line,
            #[trigger] out[q],
            origins[q],
        )
}

pub(crate) proof fn bytes_are_counted(spans: Seq<SpanView>, k: int)
    requires
        0 <= k <= spans.len(),
    ensures
        line_bytes(spans.take(k)) == bytes_before(spans, k),
    decreases k,
{
    if k > 0 {
        bytes_are_counted(spans, k - 1);
        line_bytes_grow(spans, k - 1);
    } else {
        assert(spans.take(0) =~= seq![]);
        assert(spans_text(spans.take(0)) =~= seq![]);
        assert(encode_utf8(Seq::<char>::empty()) =~= seq![]);
    }
}

proof fn overlay_is_the_marks(
    style: Style,
    decorations: Seq<Decoration>,
    styles: Seq<Style>,
    line: int,
    a: nat,
    b: nat,
)
    requires
        styles.len() == decorations.len(),
    ensures
        patched(style, marks_of(decorations, styles, line), a, b) == overlaid(
            style,
            decorations,
            styles,
            line,
            a,
            b,
        ),
    decreases decorations.len(),
{
    if decorations.len() > 0 {
        let rest = decorations.drop_last();
        let fewer = styles.drop_last();
        overlay_is_the_marks(style, rest, fewer, line, a, b);
        let before = marks_of(rest, fewer, line);
        if decorations.last().line == line {
            let all = marks_of(decorations, styles, line);
            assert(all.drop_last() =~= before);
        }
    }
}

/// A decoration of the line has those bytes.
pub open spec fn decorated(decorations: Seq<Decoration>, line: int, bytes: ByteRange) -> bool {
    exists|k: int|
        0 <= k < decorations.len() && (#[trigger] decorations[k]).line == line
            && decorations[k].bytes == bytes
}

/// A mark has those bytes.
pub open spec fn marked(marks: Seq<Mark>, bytes: ByteRange) -> bool {
    exists|m: int| 0 <= m < marks.len() && (#[trigger] marks[m]).bytes == bytes
}

/// The marks of a line are its decorations.
pub(crate) proof fn marks_are_decorations(
    decorations: Seq<Decoration>,
    styles: Seq<Style>,
    line: int,
    bytes: ByteRange,
)
    requires
        styles.len() == decorations.len(),
    ensures
        marked(marks_of(decorations, styles, line), bytes) <==> decorated(decorations, line, bytes),
    decreases decorations.len(),
{
    if decorations.len() > 0 {
        let rest = decorations.drop_last();
        let fewer = styles.drop_last();
        marks_are_decorations(rest, fewer, line, bytes);
        let before = marks_of(rest, fewer, line);
        let all = marks_of(decorations, styles, line);
        let end = decorations.len() - 1;
        if marked(all, bytes) {
            let m = choose|m: int| 0 <= m < all.len() && (#[trigger] all[m]).bytes == bytes;
            if m < before.len() {
                assert(before[m].bytes == bytes);
                let k = choose|k: int|
                    0 <= k < rest.len() && (#[trigger] rest[k]).line == line && rest[k].bytes
                        == bytes;
                assert(decorations[k] == rest[k]);
            } else {
                assert(decorations[end].line == line && decorations[end].bytes == bytes);
            }
        }
        if decorated(decorations, line, bytes) {
            let k = choose|k: int|
                0 <= k < decorations.len() && (#[trigger] decorations[k]).line == line
                    && decorations[k].bytes == bytes;
            if k < end {
                assert(rest[k] == decorations[k]);
                let m = choose|m: int|
                    0 <= m < before.len() && (#[trigger] before[m]).bytes == bytes;
                assert(all[m] == before[m]);
            } else {
                assert(all[before.len() as int].bytes == bytes);
            }
        }
    }
}

/// The piece of span `k` from byte `pos` of the line to the next cut.
proof fn a_piece_shows(
    spans: Seq<SpanView>,
    decorations: Seq<Decoration>,
    styles: Seq<Style>,
    line: int,
    style: Style,
    k: int,
    pos: nat,
)
    requires
        0 <= k < spans.len(),
        styles.len() == decorations.len(),
        marks_fit(spans_text(spans), marks_of(decorations, styles, line)),
        bytes_before(spans, k) <= pos < bytes_before(spans, k + 1),
        is_char_boundary(encode_utf8(spans[k].text), pos - bytes_before(spans, k)),
    ensures
        ({
            let start = bytes_before(spans, k);
            let end = bytes_before(spans, k + 1);
            let marks = marks_of(decorations, styles, line);
            let cut = next_cut(marks, pos, end);
            &&& pos < cut <= end
            &&& is_char_boundary(encode_utf8(spans[k].text), cut - start)
            &&& shows_text(
                spans,
                decorations,
                styles,
                line,
                style,
                SpanOut {
                    text: byte_slice(spans[k].text, pos - start, cut - start),
                    style: patched(style, marks, pos, cut),
                },
                Origin { span: k, start: pos, end: cut },
            )
        }),
{
    reveal(shows_text);
    let text = spans[k].text;
    let start = bytes_before(spans, k);
    let end = bytes_before(spans, k + 1);
    let marks = marks_of(decorations, styles, line);
    bytes_are_counted(spans, k);
    cuts_fit_in_span(spans, k, marks);
    next_cut_is_next(marks, pos, end);
    let cut = next_cut(marks, pos, end);
    a_seam_is_a_boundary(text, seq![]);
    assert(text + Seq::<char>::empty() =~= text);
    if cut != end {
        let m = choose|m: int|
            0 <= m < marks.len() && ((#[trigger] marks[m]).bytes.start == cut
                || marks[m].bytes.end == cut);
        assert(marks[m].bytes.start == cut || marks[m].bytes.end == cut);
        assert(marked(marks, marks[m].bytes));
        marks_are_decorations(decorations, styles, line, marks[m].bytes);
        let d = choose|d: int|
            0 <= d < decorations.len() && (#[trigger] decorations[d]).line == line
                && decorations[d].bytes == marks[m].bytes;
        assert(decorations[d].line == line);
    }
    slice_has_bytes(text, pos - start, cut - start);
    overlay_is_the_marks(style, decorations, styles, line, pos, cut);
    assert forall|d: int|
        0 <= d < decorations.len() && (#[trigger] decorations[d]).line == line implies {
        ||| decorations[d].bytes.start <= pos && cut <= decorations[d].bytes.end
        ||| decorations[d].bytes.end <= pos
        ||| cut <= decorations[d].bytes.start
    } by {
        assert(decorated(decorations, line, decorations[d].bytes));
        marks_are_decorations(decorations, styles, line, decorations[d].bytes);
        let m = choose|m: int|
            0 <= m < marks.len() && (#[trigger] marks[m]).bytes == decorations[d].bytes;
        assert(!(pos < marks[m].bytes.start < cut));
    }
}

/// The pieces of span `k` from byte `pos` of the line on.
proof fn pieces_show(
    spans: Seq<SpanView>,
    decorations: Seq<Decoration>,
    styles: Seq<Style>,
    line: int,
    style: Style,
    k: int,
    pos: nat,
) -> (origins: Seq<Origin>)
    requires
        0 <= k < spans.len(),
        styles.len() == decorations.len(),
        marks_fit(spans_text(spans), marks_of(decorations, styles, line)),
        bytes_before(spans, k) <= pos <= bytes_before(spans, k + 1),
        is_char_boundary(encode_utf8(spans[k].text), pos - bytes_before(spans, k)),
    ensures
        ({
            let start = bytes_before(spans, k);
            let end = bytes_before(spans, k + 1);
            let marks = marks_of(decorations, styles, line);
            let out = cut_pieces(spans[k].text, start, pos, style, marks);
            &&& origins.len() == out.len()
            &&& pos == end <==> origins.len() == 0
            &&& pos < end ==> origins[0].start == pos && origins.last().end == end
            &&& forall|q: int|
                0 <= q < out.len() ==> (#[trigger] origins[q]).span == k && shows_text(
                    spans,
                    decorations,
                    styles,
                    line,
                    style,
                    out[q],
                    origins[q],
                )
            &&& forall|q: int|
                0 <= q < origins.len() - 1 ==> (#[trigger] origins[q]).end == origins[q + 1].start
                    && origins[q].end < end
        }),
    decreases bytes_before(spans, k + 1) - pos,
{
    let text = spans[k].text;
    let start = bytes_before(spans, k);
    let end = bytes_before(spans, k + 1);
    let marks = marks_of(decorations, styles, line);
    let out = cut_pieces(text, start, pos, style, marks);
    assert(end == start + encode_utf8(text).len());
    if pos == end {
        assert(out =~= seq![]);
        Seq::empty()
    } else {
        a_piece_shows(spans, decorations, styles, line, style, k, pos);
        let cut = next_cut(marks, pos, end);
        let rest = pieces_show(spans, decorations, styles, line, style, k, cut);
        let here = Origin { span: k, start: pos, end: cut };
        let origins = seq![here] + rest;
        let more = cut_pieces(text, start, cut, style, marks);
        let first = SpanOut {
            text: byte_slice(text, pos - start, cut - start),
            style: patched(style, marks, pos, cut),
        };
        assert(out == seq![first] + more);
        assert forall|q: int| 0 <= q < out.len() implies (#[trigger] origins[q]).span == k
            && shows_text(
            spans,
            decorations,
            styles,
            line,
            style,
            out[q],
            origins[q],
        ) by {
            if q > 0 {
                assert(origins[q] == rest[q - 1]);
                assert(out[q] == more[q - 1]);
            }
        }
        assert forall|q: int| 0 <= q < origins.len() - 1 implies (#[trigger] origins[q]).end
            == origins[q + 1].start && origins[q].end < end by {
            assert(origins[q + 1] == rest[q]);
            if q > 0 {
                assert(origins[q] == rest[q - 1]);
            }
        }
        origins
    }
}

/// One more piece that is a spinner.
proof fn a_spinner_more(
    faces: Seq<Face>,
    before: Seq<Origin>,
    here: Origin,
    spinners: Seq<SpinnerLine>,
    style: Option<String>,
)
    requires
        spinners_of(faces, before, spinners, 0),
        before.len() < usize::MAX,
        faces[here.span] matches Face::Spinner { style: named, span: _ } && named == style,
    ensures
        spinners_of(
            faces,
            before.push(here),
            spinners.push(SpinnerLine { line: 0, span: before.len() as usize, style }),
            0,
        ),
{
    reveal(spinners_of);
    let origins = before.push(here);
    let all = spinners.push(SpinnerLine { line: 0, span: before.len() as usize, style });
    assert forall|q: int|
        0 <= q < origins.len() && faces[(#[trigger] origins[q]).span] is Spinner implies exists|
        s: int,
    | 0 <= s < all.len() && (#[trigger] all[s]).span == q by {
        if q < before.len() {
            assert(origins[q] == before[q]);
            let s = choose|s: int| 0 <= s < spinners.len() && (#[trigger] spinners[s]).span == q;
            assert(all[s].span == q);
        } else {
            assert(all[spinners.len() as int].span == q);
        }
    }
    assert forall|s: int| 0 <= s < all.len() implies {
        let spinner = #[trigger] all[s];
        &&& spinner.line == 0
        &&& spinner.span < origins.len()
        &&& faces[origins[spinner.span as int].span] matches Face::Spinner { style, span: _ }
            && spinner.style == style
    } by {
        if s < spinners.len() {
            assert(all[s] == spinners[s]);
            assert(origins[all[s].span as int] == before[all[s].span as int]);
        }
    }
    assert forall|s: int, u: int| 0 <= s < u < all.len() implies (#[trigger] all[s]).span < (
    #[trigger] all[u]).span by {
        assert(all[s] == spinners[s]);
        if u < spinners.len() {
            assert(all[u] == spinners[u]);
        }
    }
}

/// More pieces that are no spinners.
proof fn no_spinner_more(
    faces: Seq<Face>,
    before: Seq<Origin>,
    more: Seq<Origin>,
    spinners: Seq<SpinnerLine>,
)
    requires
        spinners_of(faces, before, spinners, 0),
        forall|q: int| 0 <= q < more.len() ==> !(faces[(#[trigger] more[q]).span] is Spinner),
    ensures
        spinners_of(faces, before + more, spinners, 0),
{
    reveal(spinners_of);
    let origins = before + more;
    assert forall|q: int|
        0 <= q < origins.len() && faces[(#[trigger] origins[q]).span] is Spinner implies exists|
        s: int,
    | 0 <= s < spinners.len() && (#[trigger] spinners[s]).span == q by {
        if q < before.len() {
            assert(origins[q] == before[q]);
        } else {
            assert(origins[q] == more[q - before.len()]);
        }
    }
    assert forall|s: int| 0 <= s < spinners.len() implies {
        let spinner = #[trigger] spinners[s];
        &&& spinner.line == 0
        &&& spinner.span < origins.len()
        &&& faces[origins[spinner.span as int].span] matches Face::Spinner { style, span: _ }
            && spinner.style == style
    } by {
        let spinner = spinners[s];
        assert(origins[spinner.span as int] == before[spinner.span as int]);
    }
}

/// A spinner that no mark reaches into.
proof fn a_spinner_shows(
    spans: Seq<SpanView>,
    faces: Seq<Face>,
    decorations: Seq<Decoration>,
    styles: Seq<Style>,
    line: int,
    k: int,
)
    requires
        0 <= k < spans.len(),
        styles.len() == decorations.len(),
        faces[k] is Spinner,
        !touched(
            marks_of(decorations, styles, line),
            bytes_before(spans, k),
            bytes_before(spans, k + 1),
        ),
    ensures
        shows(
            spans,
            faces,
            decorations,
            styles,
            line,
            faces[k]->Spinner_span@,
            Origin { span: k, start: bytes_before(spans, k), end: bytes_before(spans, k + 1) },
        ),
{
    reveal(shows);
    let marks = marks_of(decorations, styles, line);
    let start = bytes_before(spans, k);
    let end = bytes_before(spans, k + 1);
    assert forall|d: int|
        0 <= d < decorations.len() && (#[trigger] decorations[d]).line == line implies end
        <= decorations[d].bytes.start || decorations[d].bytes.end <= start by {
        assert(decorated(decorations, line, decorations[d].bytes));
        marks_are_decorations(decorations, styles, line, decorations[d].bytes);
        let m = choose|m: int|
            0 <= m < marks.len() && (#[trigger] marks[m]).bytes == decorations[d].bytes;
        assert(!(marks[m].bytes.start < end && start < marks[m].bytes.end));
    }
}

/// A span in a style of its own, whole.
proof fn a_span_shows(
    spans: Seq<SpanView>,
    faces: Seq<Face>,
    decorations: Seq<Decoration>,
    styles: Seq<Style>,
    line: int,
    style: Style,
    k: int,
) -> (more: Seq<Origin>)
    requires
        0 <= k < spans.len(),
        styles.len() == decorations.len(),
        marks_fit(spans_text(spans), marks_of(decorations, styles, line)),
        faces[k] == Face::Styled(style),
    ensures
        ({
            let start = bytes_before(spans, k);
            let out = pieces(spans[k].text, start, style, marks_of(decorations, styles, line));
            &&& more.len() == out.len()
            &&& more.len() > 0
            &&& more[0].start == start
            &&& more.last().end == bytes_before(spans, k + 1)
            &&& forall|q: int|
                0 <= q < out.len() ==> (#[trigger] more[q]).span == k && shows(
                    spans,
                    faces,
                    decorations,
                    styles,
                    line,
                    out[q],
                    more[q],
                )
            &&& forall|q: int|
                0 <= q < more.len() - 1 ==> follows(spans, #[trigger] more[q], more[q + 1])
        }),
{
    reveal(shows);
    let text = spans[k].text;
    let start = bytes_before(spans, k);
    let end = bytes_before(spans, k + 1);
    let marks = marks_of(decorations, styles, line);
    assert(end == start + encode_utf8(text).len());
    if start == end {
        let here = Origin { span: k, start, end };
        let out = SpanOut { text: seq![], style };
        assert(encode_utf8(Seq::<char>::empty()) =~= encode_utf8(text).subrange(0, 0));
        assert(shows_text(spans, decorations, styles, line, style, out, here)) by {
            reveal(shows_text);
        }
        seq![here]
    } else {
        a_seam_is_a_boundary(seq![], text);
        assert(Seq::<char>::empty() + text =~= text);
        assert(encode_utf8(Seq::<char>::empty()) =~= seq![]);
        let more = pieces_show(spans, decorations, styles, line, style, k, start);
        assert forall|q: int| 0 <= q < more.len() - 1 implies follows(
            spans,
            #[trigger] more[q],
            more[q + 1],
        ) by {
            assert(more[q + 1].span == k);
        }
        more
    }
}

/// The first `k` spans of a line, drawn.
proof fn spans_show(
    spans: Seq<SpanView>,
    faces: Seq<Face>,
    decorations: Seq<Decoration>,
    styles: Seq<Style>,
    line: int,
    k: int,
) -> (origins: Seq<Origin>)
    requires
        0 <= k <= spans.len(),
        faces.len() == spans.len(),
        styles.len() == decorations.len(),
        marks_fit(spans_text(spans), marks_of(decorations, styles, line)),
        composed(spans.take(k), faces.take(k), marks_of(decorations, styles, line)) is Some,
    ensures
        ({
            let made = composed(
                spans.take(k),
                faces.take(k),
                marks_of(decorations, styles, line),
            )->Some_0;
            &&& origins.len() == made.spans.len()
            &&& tiles(spans, origins, k)
            &&& forall|q: int|
                0 <= q < made.spans.len() ==> #[trigger] shows(
                    spans,
                    faces,
                    decorations,
                    styles,
                    line,
                    made.spans[q],
                    origins[q],
                )
            &&& made.spans.len() <= usize::MAX ==> spinners_of(faces, origins, made.spinners, 0)
        }),
    decreases k,
{
    let marks = marks_of(decorations, styles, line);
    if k == 0 {
        let none = Seq::<Origin>::empty();
        assert(spinners_of(faces, none, Seq::empty(), 0)) by {
            reveal(spinners_of);
        }
        none
    } else {
        let part = spans.take(k);
        let fs = faces.take(k);
        assert(part.drop_last() =~= spans.take(k - 1));
        assert(fs.drop_last() =~= faces.take(k - 1));
        let before = spans_show(spans, faces, decorations, styles, line, k - 1);
        let done = composed(part.drop_last(), fs.drop_last(), marks)->Some_0;
        let made = composed(part, fs, marks)->Some_0;
        bytes_are_counted(spans, k - 1);
        bytes_are_counted(spans, k);
        let start = bytes_before(spans, k - 1);
        let end = bytes_before(spans, k);
        assert(fs.last() == faces[k - 1]);
        assert(part.last() == spans[k - 1]);
        match faces[k - 1] {
            Face::Spinner { style, span } => {
                let here = Origin { span: k - 1, start, end };
                a_spinner_shows(spans, faces, decorations, styles, line, k - 1);
                assert(made.spans == done.spans.push(span@));
                tiles_grow(spans, before, seq![here], k - 1);
                assert(before + seq![here] =~= before.push(here));
                if made.spans.len() <= usize::MAX {
                    a_spinner_more(faces, before, here, done.spinners, style);
                }
                let origins = before.push(here);
                assert forall|q: int| 0 <= q < made.spans.len() implies #[trigger] shows(
                    spans,
                    faces,
                    decorations,
                    styles,
                    line,
                    made.spans[q],
                    origins[q],
                ) by {
                    if q < before.len() {
                        assert(made.spans[q] == done.spans[q]);
                    }
                }
                origins
            },
            Face::Styled(style) => {
                let more = a_span_shows(spans, faces, decorations, styles, line, style, k - 1);
                let out = pieces(spans[k - 1].text, start, style, marks);
                let origins = before + more;
                assert(made.spans == done.spans + out);
                assert(more[more.len() - 1].span == k - 1);
                assert(more[0].span == k - 1);
                tiles_grow(spans, before, more, k - 1);
                if made.spans.len() <= usize::MAX {
                    no_spinner_more(faces, before, more, done.spinners);
                }
                assert forall|q: int| 0 <= q < made.spans.len() implies #[trigger] shows(
                    spans,
                    faces,
                    decorations,
                    styles,
                    line,
                    made.spans[q],
                    origins[q],
                ) by {
                    if q < before.len() {
                        assert(made.spans[q] == done.spans[q]);
                    } else {
                        let j = q - before.len();
                        assert(more[j].span == k - 1);
                        assert(made.spans[q] == out[j]);
                    }
                }
                origins
            },
        }
    }
}

proof fn tiles_grow(spans: Seq<SpanView>, before: Seq<Origin>, more: Seq<Origin>, k: int)
    requires
        0 <= k < spans.len(),
        tiles(spans, before, k),
        more.len() > 0,
        more[0].span == k,
        more[0].start == bytes_before(spans, k),
        more.last().span == k,
        more.last().end == bytes_before(spans, k + 1),
        forall|q: int|
            0 <= q < more.len() - 1 ==> follows(spans, #[trigger] more[q], more[q + 1]),
    ensures
        tiles(spans, before + more, k + 1),
{
    let all = before + more;
    assert(all.last() == more.last());
    assert forall|q: int| 0 <= q < all.len() - 1 implies follows(
        spans,
        #[trigger] all[q],
        all[q + 1],
    ) by {
        if q < before.len() - 1 {
            assert(all[q] == before[q]);
            assert(all[q + 1] == before[q + 1]);
        } else if q == before.len() - 1 {
            assert(all[q] == before.last());
            assert(all[q + 1] == more[0]);
        } else {
            assert(all[q] == more[q - before.len()]);
            assert(all[q + 1] == more[q - before.len() + 1]);
        }
    }
    if before.len() > 0 {
        assert(all[0] == before[0]);
    } else {
        assert(all[0] == more[0]);
    }
}

/// Every line of a drawn run shows its source: all of its text, from the first
/// byte to the last, in pieces that each have the style the theme gives their
/// span, with the styles of all decorations of that very line that cover them
/// laid over in list order. A spinner shows its frame instead.
pub proof fn a_drawn_line_shows_its_source(
    source: Seq<SnapshotLine>,
    decorations: Seq<Decoration>,
    faces: Faces,
    i: int,
)
    requires
        faces_fit(source, decorations, faces),
        drawable(source, decorations, faces),
        0 <= i < source.len(),
    ensures
        exists|origins: Seq<Origin>| #[trigger]
            line_shows(
                source[i]@,
                faces.spans@[i]@,
                decorations,
                faces.decorations@,
                i,
                drawn(source, decorations, faces)[i].spans,
                origins,
            ) && (drawn(source, decorations, faces)[i].spans.len() <= usize::MAX ==> spinners_of(
                faces.spans@[i]@,
                origins,
                drawn(source, decorations, faces)[i].spinners,
                0,
            )),
        drawn(source, decorations, faces).len() == source.len(),
{
    let spans = source[i]@;
    let fs = faces.spans@[i]@;
    let styles = faces.decorations@;
    assert(line_composed(source, decorations, faces, i) is Some);
    assert(faces.spans@[i]@.len() == source[i].spans@.len());
    marks_of_fit(source, decorations, styles, i);
    let n = spans.len() as int;
    assert(spans.take(n) =~= spans);
    assert(fs.take(n) =~= fs);
    let origins = spans_show(spans, fs, decorations, styles, i, n);
    let made = drawn(source, decorations, faces)[i];
    assert forall|q: int| 0 <= q < made.spans.len() implies shows(
        spans,
        fs,
        decorations,
        styles,
        i,
        #[trigger] made.spans[q],
        origins[q],
    ) by {}
    assert(line_shows(spans, fs, decorations, styles, i, made.spans, origins));
}

} // verus!
