//! What holds of every diff projection: numbers stay inside their hunk, an
//! empty side is nowhere, and emphasis can be sliced out of the text.

use crate::diff::{
    counts_grow, diff_tree, emphasis, hunk_line_trees, lacks_newline, line_fits, line_tree,
    new_count, new_start, old_count, old_start, range_tree, range_trees, span_bytes, span_text,
    DiffHunk, DiffLine, DiffSpan, HunkView,
};
use crate::json::{field, has_field, Json};
use crate::text::{a_seam_is_a_boundary, boundary_stays, bytes_of_concat};
use vstd::prelude::*;
use vstd::utf8::{encode_utf8, is_char_boundary};

verus! {

/// A context line is numbered on both sides and has no emphasis, a removed
/// one is numbered on the old side alone, an added one on the new side alone.
pub proof fn a_line_is_numbered_on_its_sides(
    line: DiffLine,
    old_line: nat,
    new_line: nat,
    no_newline: bool,
)
    ensures
        ({
            let tree = line_tree(line, old_line, new_line, no_newline);
            &&& has_field(tree, "old_line"@) <==> !(line is Added)
            &&& has_field(tree, "new_line"@) <==> !(line is Removed)
            &&& has_field(tree, "emphasis"@) <==> !(line is Unchanged)
            &&& has_field(tree, "old_line"@) ==> field(tree, "old_line"@) == Json::Num(old_line)
            &&& has_field(tree, "new_line"@) ==> field(tree, "new_line"@) == Json::Num(new_line)
            &&& field(tree, "no_newline_at_eof"@) == Json::Bool(no_newline)
        }),
{
    reveal_strlit("kind");
    assert("kind"@.len() == 4);
    reveal_strlit("text");
    assert("text"@.len() == 4);
    reveal_strlit("old_line");
    assert("old_line"@.len() == 8);
    reveal_strlit("new_line");
    assert("new_line"@.len() == 8);
    reveal_strlit("emphasis");
    assert("emphasis"@.len() == 8);
    reveal_strlit("no_newline_at_eof");
    assert("no_newline_at_eof"@.len() == 17);
    assert("kind"@[0] != "text"@[0]);
    assert("old_line"@[0] != "new_line"@[0]);
    assert("old_line"@[0] != "emphasis"@[0]);
    assert("new_line"@[0] != "emphasis"@[0]);
}

/// The numbers of a hunk's lines run from where their side starts, without a
/// gap, to as many as the side has.
pub proof fn line_numbers_stay_in_the_hunk(
    hunk: HunkView,
    before: Seq<char>,
    after: Seq<char>,
    k: int,
)
    requires
        0 <= k < hunk.lines.len(),
    ensures
        ({
            let tree = hunk_line_trees(hunk, before, after)[k];
            &&& !(hunk.lines[k] is Added) ==> {
                &&& field(tree, "old_line"@) matches Json::Num(n)
                &&& n == old_start(hunk) + old_count(hunk.lines.take(k))
                &&& old_start(hunk) <= n < old_start(hunk) + old_count(hunk.lines)
            }
            &&& !(hunk.lines[k] is Removed) ==> {
                &&& field(tree, "new_line"@) matches Json::Num(n)
                &&& n == new_start(hunk) + new_count(hunk.lines.take(k))
                &&& new_start(hunk) <= n < new_start(hunk) + new_count(hunk.lines)
            }
        }),
{
    counts_grow(hunk.lines, k + 1);
    assert(hunk.lines.take(k + 1).drop_last() =~= hunk.lines.take(k));
    assert(hunk.lines.take(k + 1).last() == hunk.lines[k]);
    a_line_is_numbered_on_its_sides(
        hunk.lines[k],
        old_start(hunk) + old_count(hunk.lines.take(k)),
        new_start(hunk) + new_count(hunk.lines.take(k)),
        lacks_newline(hunk, k, before, after),
    );
}

/// An empty side of a hunk has start zero and count zero, and no line of the
/// hunk is numbered on it.
pub proof fn an_empty_side_is_nowhere(hunk: HunkView, before: Seq<char>, after: Seq<char>, k: int)
    requires
        0 <= k < hunk.lines.len(),
    ensures
        old_count(hunk.lines) == 0 ==> old_start(hunk) == 0 && !has_field(
            hunk_line_trees(hunk, before, after)[k],
            "old_line"@,
        ),
        new_count(hunk.lines) == 0 ==> new_start(hunk) == 0 && !has_field(
            hunk_line_trees(hunk, before, after)[k],
            "new_line"@,
        ),
{
    line_numbers_stay_in_the_hunk(hunk, before, after, k);
    a_line_is_numbered_on_its_sides(
        hunk.lines[k],
        old_start(hunk) + old_count(hunk.lines.take(k)),
        new_start(hunk) + new_count(hunk.lines.take(k)),
        lacks_newline(hunk, k, before, after),
    );
}

/// Only a hunk's last line can say that its file does not end in a line feed.
pub proof fn only_the_last_line_lacks_a_newline(
    hunk: HunkView,
    before: Seq<char>,
    after: Seq<char>,
    k: int,
)
    requires
        0 <= k < hunk.lines.len(),
        field(hunk_line_trees(hunk, before, after)[k], "no_newline_at_eof"@) == Json::Bool(true),
    ensures
        k == hunk.lines.len() - 1,
{
    a_line_is_numbered_on_its_sides(
        hunk.lines[k],
        old_start(hunk) + old_count(hunk.lines.take(k)),
        new_start(hunk) + new_count(hunk.lines.take(k)),
        lacks_newline(hunk, k, before, after),
    );
}

/// A diff carries both files unchanged.
pub proof fn a_diff_keeps_its_sources(
    path: Seq<char>,
    before: Seq<char>,
    after: Seq<char>,
    summary: Seq<char>,
    hunks: Seq<DiffHunk>,
)
    ensures
        ({
            let sources = field(diff_tree(path, before, after, summary, hunks), "sources"@);
            &&& field(sources, "before"@) == Json::Str(before)
            &&& field(sources, "after"@) == Json::Str(after)
        }),
{
    reveal_strlit("path");
    assert("path"@.len() == 4);
    reveal_strlit("summary");
    assert("summary"@.len() == 7);
    reveal_strlit("mode");
    assert("mode"@.len() == 4);
    reveal_strlit("hunks");
    assert("hunks"@.len() == 5);
    reveal_strlit("sources");
    assert("sources"@.len() == 7);
    reveal_strlit("before");
    assert("before"@.len() == 6);
    reveal_strlit("after");
    assert("after"@.len() == 5);
    assert("summary"@[1] != "sources"@[1]);
}

/// The bytes of the spans are the bytes of their text.
proof fn bytes_of_spans(spans: Seq<DiffSpan>)
    ensures
        encode_utf8(span_text(spans)).len() == span_bytes(spans),
    decreases spans.len(),
{
    if spans.len() > 0 {
        bytes_of_spans(spans.drop_last());
        bytes_of_concat(span_text(spans.drop_last()), spans.last().text@);
    } else {
        assert(encode_utf8(span_text(spans)) =~= seq![]);
    }
}

/// Every emphasized range can be sliced out of the line's text: its ends are
/// in order, in bounds, and between characters. Ranges are in order and do
/// not overlap.
pub proof fn emphasis_can_be_sliced(spans: Seq<DiffSpan>)
    ensures
        forall|k: int|
            0 <= k < emphasis(spans).len() ==> {
                let range = #[trigger] emphasis(spans)[k];
                &&& range.0 <= range.1 <= encode_utf8(span_text(spans)).len()
                &&& is_char_boundary(encode_utf8(span_text(spans)), range.0 as int)
                &&& is_char_boundary(encode_utf8(span_text(spans)), range.1 as int)
            },
        forall|j: int, k: int|
            0 <= j < k < emphasis(spans).len() ==> (#[trigger] emphasis(spans)[j]).1 <= (
            #[trigger] emphasis(spans)[k]).0,
    decreases spans.len(),
{
    bytes_of_spans(spans);
    if spans.len() > 0 {
        let rest = spans.drop_last();
        let last = spans.last();
        emphasis_can_be_sliced(rest);
        bytes_of_spans(rest);
        a_seam_is_a_boundary(span_text(rest), last.text@);
        let whole = span_text(spans);
        assert(whole + Seq::<char>::empty() =~= whole);
        a_seam_is_a_boundary(whole, Seq::<char>::empty());
        assert forall|k: int| 0 <= k < emphasis(spans).len() implies {
            let range = #[trigger] emphasis(spans)[k];
            &&& range.0 <= range.1 <= encode_utf8(whole).len()
            &&& is_char_boundary(encode_utf8(whole), range.0 as int)
            &&& is_char_boundary(encode_utf8(whole), range.1 as int)
        } by {
            let range = emphasis(spans)[k];
            if k < emphasis(rest).len() {
                assert(range == emphasis(rest)[k]);
                boundary_stays(span_text(rest), last.text@, range.0 as int);
                boundary_stays(span_text(rest), last.text@, range.1 as int);
                bytes_of_concat(span_text(rest), last.text@);
            }
        }
        assert forall|j: int, k: int| 0 <= j < k < emphasis(spans).len() implies (
        #[trigger] emphasis(spans)[j]).1 <= (#[trigger] emphasis(spans)[k]).0 by {
            assert(emphasis(spans)[j] == emphasis(rest)[j]);
            if k < emphasis(rest).len() {
                assert(emphasis(spans)[k] == emphasis(rest)[k]);
            }
        }
    }
}

/// How many of the lines are on the old side: all but the added ones.
pub open spec fn olds(lines: Seq<DiffLine>) -> nat {
    lines.filter(|line: DiffLine| !(line is Added)).len()
}

/// How many of the lines are on the new side: all but the removed ones.
pub open spec fn news(lines: Seq<DiffLine>) -> nat {
    lines.filter(|line: DiffLine| !(line is Removed)).len()
}

proof fn sides_are_counted(lines: Seq<DiffLine>)
    ensures
        old_count(lines) == olds(lines),
        new_count(lines) == news(lines),
    decreases lines.len(),
{
    reveal(Seq::filter);
    if lines.len() > 0 {
        sides_are_counted(lines.drop_last());
    }
}

/// Every hunk the host computed is projected, in order: the list is as long,
/// and each element has its hunk's start on either side, as many lines as the
/// hunk has there, and all of its lines. A side without lines starts at zero.
pub proof fn every_hunk_is_projected(
    path: Seq<char>,
    before: Seq<char>,
    after: Seq<char>,
    summary: Seq<char>,
    hunks: Seq<DiffHunk>,
    k: int,
)
    ensures
        field(diff_tree(path, before, after, summary, hunks), "hunks"@) matches Json::Arr(made)
            && made.len() == hunks.len() && (0 <= k < hunks.len() ==> {
            let hunk = hunks[k]@;
            &&& field(made[k], "old_start"@) == Json::Num(
                if olds(hunk.lines) > 0 {
                    hunk.before_start
                } else {
                    0
                },
            )
            &&& field(made[k], "new_start"@) == Json::Num(
                if news(hunk.lines) > 0 {
                    hunk.after_start
                } else {
                    0
                },
            )
            &&& field(made[k], "old_count"@) == Json::Num(olds(hunk.lines))
            &&& field(made[k], "new_count"@) == Json::Num(news(hunk.lines))
            &&& field(made[k], "lines"@) matches Json::Arr(lines) && lines.len()
                == hunk.lines.len() && lines == hunk_line_trees(hunk, before, after)
        }),
{
    reveal_strlit("path");
    assert("path"@.len() == 4);
    reveal_strlit("summary");
    assert("summary"@.len() == 7);
    reveal_strlit("mode");
    assert("mode"@.len() == 4);
    reveal_strlit("hunks");
    assert("hunks"@.len() == 5);
    reveal_strlit("sources");
    assert("sources"@.len() == 7);
    reveal_strlit("old_start");
    assert("old_start"@.len() == 9);
    reveal_strlit("old_count");
    assert("old_count"@.len() == 9);
    reveal_strlit("new_start");
    assert("new_start"@.len() == 9);
    reveal_strlit("new_count");
    assert("new_count"@.len() == 9);
    reveal_strlit("lines");
    assert("lines"@.len() == 5);
    assert("path"@[0] != "mode"@[0]);
    assert("summary"@[1] != "sources"@[1]);
    assert("hunks"@[0] != "lines"@[0]);
    assert("old_start"@[4] != "old_count"@[4]);
    assert("old_start"@[0] != "new_start"@[0]);
    assert("old_start"@[0] != "new_count"@[0]);
    assert("old_count"@[0] != "new_start"@[0]);
    assert("old_count"@[0] != "new_count"@[0]);
    assert("new_start"@[4] != "new_count"@[4]);
    if 0 <= k < hunks.len() {
        sides_are_counted(hunks[k]@.lines);
    }
}

/// A diff says what it is of: its path and summary, and whether the file is
/// new, deleted or edited.
pub proof fn a_diff_says_what_it_is_of(
    path: Seq<char>,
    before: Seq<char>,
    after: Seq<char>,
    summary: Seq<char>,
    hunks: Seq<DiffHunk>,
)
    ensures
        ({
            let tree = diff_tree(path, before, after, summary, hunks);
            &&& field(tree, "path"@) == Json::Str(path)
            &&& field(tree, "summary"@) == Json::Str(summary)
            &&& before.len() == 0 ==> field(tree, "mode"@) == Json::Str("new"@)
            &&& before.len() > 0 && after.len() == 0 ==> field(tree, "mode"@) == Json::Str(
                "delete"@,
            )
            &&& before.len() > 0 && after.len() > 0 ==> field(tree, "mode"@) == Json::Str("edit"@)
        }),
{
    reveal_strlit("path");
    assert("path"@.len() == 4);
    reveal_strlit("summary");
    assert("summary"@.len() == 7);
    reveal_strlit("mode");
    assert("mode"@.len() == 4);
    reveal_strlit("hunks");
    assert("hunks"@.len() == 5);
    reveal_strlit("sources");
    assert("sources"@.len() == 7);
    assert("path"@[0] != "mode"@[0]);
    assert("summary"@[1] != "sources"@[1]);
}

/// The text of a run of spans, from the first on.
pub open spec fn pieces_text(spans: Seq<DiffSpan>) -> Seq<char>
    decreases spans.len(),
{
    if spans.len() == 0 {
        Seq::empty()
    } else {
        spans[0].text@ + pieces_text(spans.drop_first())
    }
}

proof fn pieces_are_the_text(spans: Seq<DiffSpan>)
    ensures
        span_text(spans) == pieces_text(spans),
    decreases spans.len(),
{
    if spans.len() > 0 {
        span_text_front(spans);
        pieces_are_the_text(spans.drop_first());
    }
}

proof fn span_text_front(spans: Seq<DiffSpan>)
    requires
        spans.len() > 0,
    ensures
        span_text(spans) == spans[0].text@ + span_text(spans.drop_first()),
    decreases spans.len(),
{
    let rest = spans.drop_first();
    if spans.len() == 1 {
        assert(spans.drop_last() =~= seq![]);
        assert(rest =~= seq![]);
        assert(span_text(spans.drop_last()) =~= seq![]);
        assert(span_text(rest) =~= seq![]);
        assert(span_text(spans) =~= spans[0].text@ + span_text(rest));
    } else {
        span_text_front(spans.drop_last());
        assert(spans.drop_last().drop_first() =~= rest.drop_last());
        assert(span_text(spans) =~= spans[0].text@ + span_text(rest));
    }
}

/// A line of a hunk says what it is: its text, unchanged, its kind, and on each
/// side it is on its number, which runs from the side's start without a gap.
/// Only the hunk's last line, and only when a side the hunk has lines on does
/// not end in a line feed, says that there is none.
pub proof fn every_line_of_a_hunk_is_projected(
    hunk: HunkView,
    before: Seq<char>,
    after: Seq<char>,
    j: int,
)
    requires
        0 <= j < hunk.lines.len(),
    ensures
        ({
            let made = hunk_line_trees(hunk, before, after)[j];
            let old_line = (if olds(hunk.lines) > 0 {
                hunk.before_start
            } else {
                0
            }) + olds(hunk.lines.take(j));
            let new_line = (if news(hunk.lines) > 0 {
                hunk.after_start
            } else {
                0
            }) + news(hunk.lines.take(j));
            &&& hunk.lines[j] matches DiffLine::Unchanged(content) ==> {
                &&& field(made, "kind"@) == Json::Str("context"@)
                &&& field(made, "text"@) == Json::Str(content@)
                &&& field(made, "old_line"@) == Json::Num(old_line)
                &&& field(made, "new_line"@) == Json::Num(new_line)
                &&& !has_field(made, "emphasis"@)
            }
            &&& hunk.lines[j] matches DiffLine::Removed(spans) ==> {
                &&& field(made, "kind"@) == Json::Str("remove"@)
                &&& field(made, "text"@) == Json::Str(pieces_text(spans@))
                &&& field(made, "old_line"@) == Json::Num(old_line)
                &&& !has_field(made, "new_line"@)
                &&& field(made, "emphasis"@) == Json::Arr(range_trees(emphasis(spans@)))
            }
            &&& hunk.lines[j] matches DiffLine::Added(spans) ==> {
                &&& field(made, "kind"@) == Json::Str("add"@)
                &&& field(made, "text"@) == Json::Str(pieces_text(spans@))
                &&& field(made, "new_line"@) == Json::Num(new_line)
                &&& !has_field(made, "old_line"@)
                &&& field(made, "emphasis"@) == Json::Arr(range_trees(emphasis(spans@)))
            }
            &&& field(made, "no_newline_at_eof"@) == Json::Bool(
                j == hunk.lines.len() - 1 && ((olds(hunk.lines) > 0 && !(before.len() > 0
                    && before.last() == '\n')) || (news(hunk.lines) > 0 && !(after.len() > 0
                    && after.last() == '\n'))),
            )
        }),
{
    reveal_strlit("kind");
    assert("kind"@.len() == 4);
    reveal_strlit("text");
    assert("text"@.len() == 4);
    reveal_strlit("old_line");
    assert("old_line"@.len() == 8);
    reveal_strlit("new_line");
    assert("new_line"@.len() == 8);
    reveal_strlit("emphasis");
    assert("emphasis"@.len() == 8);
    reveal_strlit("no_newline_at_eof");
    assert("no_newline_at_eof"@.len() == 17);
    assert("kind"@[0] != "text"@[0]);
    assert("old_line"@[0] != "new_line"@[0]);
    assert("old_line"@[0] != "emphasis"@[0]);
    assert("new_line"@[0] != "emphasis"@[0]);
    sides_are_counted(hunk.lines);
    sides_are_counted(hunk.lines.take(j));
    match hunk.lines[j] {
        DiffLine::Unchanged(_) => {},
        DiffLine::Removed(spans) => pieces_are_the_text(spans@),
        DiffLine::Added(spans) => pieces_are_the_text(spans@),
    }
}

/// How many of the spans are emphasized.
pub open spec fn stressed(spans: Seq<DiffSpan>) -> nat {
    spans.filter(|span: DiffSpan| span.emphasized).len()
}

/// The emphasis of a line is one range for every emphasized span, in order:
/// the bytes that span has in the line's text.
pub proof fn emphasis_is_of_the_emphasized_spans(spans: Seq<DiffSpan>)
    ensures
        range_trees(emphasis(spans)).len() == stressed(spans),
        forall|j: int|
            0 <= j < spans.len() && (#[trigger] spans[j]).emphasized ==> stressed(spans.take(j))
                < stressed(spans) && is_range(
                range_trees(emphasis(spans))[stressed(spans.take(j)) as int],
                encode_utf8(pieces_text(spans.take(j))).len(),
                encode_utf8(pieces_text(spans.take(j + 1))).len(),
            ),
    decreases spans.len(),
{
    reveal(Seq::filter);
    if spans.len() > 0 {
        let rest = spans.drop_last();
        emphasis_is_of_the_emphasized_spans(rest);
        let all = range_trees(emphasis(spans));
        let some = range_trees(emphasis(rest));
        assert forall|j: int| 0 <= j < spans.len() && (#[trigger] spans[j]).emphasized implies
            stressed(spans.take(j)) < stressed(spans) && is_range(
            all[stressed(spans.take(j)) as int],
            encode_utf8(pieces_text(spans.take(j))).len(),
            encode_utf8(pieces_text(spans.take(j + 1))).len(),
        ) by {
            if j < rest.len() {
                assert(rest[j] == spans[j]);
                assert(rest.take(j) =~= spans.take(j));
                assert(rest.take(j + 1) =~= spans.take(j + 1));
                assert(all[stressed(rest.take(j)) as int] == some[stressed(rest.take(j)) as int]);
            } else {
                assert(spans.take(j) =~= rest);
                assert(spans.take(j + 1) =~= spans);
                pieces_are_the_text(rest);
                pieces_are_the_text(spans);
                bytes_of_spans(rest);
                bytes_of_spans(spans);
                ranges_are_fields((span_bytes(rest), span_bytes(spans)));
            }
        }
    }
}

/// A range of changed bytes.
pub open spec fn is_range(tree: Json, start: nat, end: nat) -> bool {
    &&& field(tree, "start_byte"@) == Json::Num(start)
    &&& field(tree, "end_byte"@) == Json::Num(end)
    &&& field(tree, "kind"@) == Json::Str("changed"@)
}

proof fn ranges_are_fields(range: (nat, nat))
    ensures
        is_range(range_tree(range), range.0, range.1),
{
    reveal_strlit("start_byte");
    assert("start_byte"@.len() == 10);
    reveal_strlit("end_byte");
    assert("end_byte"@.len() == 8);
    reveal_strlit("kind");
    assert("kind"@.len() == 4);
}


/// A hunk is taken exactly when every number one of its lines could have, and
/// the length of every line, is a machine number.
pub proof fn which_hunks_can_be_numbered(hunk: HunkView)
    ensures
        hunk.in_range() <==> hunk.before_start + hunk.lines.len() <= usize::MAX
            && hunk.after_start + hunk.lines.len() <= usize::MAX && forall|k: int|
            0 <= k < hunk.lines.len() ==> can_be_measured(#[trigger] hunk.lines[k]),
{
    assert forall|k: int| 0 <= k < hunk.lines.len() implies can_be_measured(
        #[trigger] hunk.lines[k],
    ) == line_fits(hunk.lines[k]) by {
        match hunk.lines[k] {
            DiffLine::Unchanged(_) => {},
            DiffLine::Removed(spans) => {
                bytes_of_spans(spans@);
                pieces_are_the_text(spans@);
            },
            DiffLine::Added(spans) => {
                bytes_of_spans(spans@);
                pieces_are_the_text(spans@);
            },
        }
    }
    if hunk.in_range() {
        assert forall|k: int| 0 <= k < hunk.lines.len() implies can_be_measured(
            #[trigger] hunk.lines[k],
        ) by {
            assert(line_fits(hunk.lines[k]));
        }
    }
}

/// The bytes of a changed line can be counted.
pub open spec fn can_be_measured(line: DiffLine) -> bool {
    match line {
        DiffLine::Unchanged(_) => true,
        DiffLine::Removed(spans) => encode_utf8(pieces_text(spans@)).len() <= usize::MAX,
        DiffLine::Added(spans) => encode_utf8(pieces_text(spans@)).len() <= usize::MAX,
    }
}

} // verus!
