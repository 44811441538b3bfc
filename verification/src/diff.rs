//! Diffs as structured hunks: numbered lines, byte ranges of what changed,
//! and the sources the hunks were computed from.

use crate::json::{
    fields, flag, json_tree, list, no_fields, number, object, put, text, trees, trees_push, Json,
};
use serde_json::Value;
use vstd::prelude::*;
use vstd::utf8::encode_utf8;

verus! {

/// A piece of a changed line.
#[derive(Debug)]
pub struct DiffSpan {
    pub text: String,
    pub emphasized: bool,
}

/// One line of a hunk. The text has no trailing line feed.
#[derive(Debug)]
pub enum DiffLine {
    Unchanged(String),
    Removed(Vec<DiffSpan>),
    Added(Vec<DiffSpan>),
}

/// How many bytes the spans hold.
pub open spec fn span_bytes(spans: Seq<DiffSpan>) -> nat
    decreases spans.len(),
{
    if spans.len() == 0 {
        0
    } else {
        span_bytes(spans.drop_last()) + encode_utf8(spans.last().text@).len()
    }
}

/// The text of the spans, in order.
pub open spec fn span_text(spans: Seq<DiffSpan>) -> Seq<char>
    decreases spans.len(),
{
    if spans.len() == 0 {
        seq![]
    } else {
        span_text(spans.drop_last()) + spans.last().text@
    }
}

/// A line's bytes can be counted.
pub open spec fn line_fits(line: DiffLine) -> bool {
    match line {
        DiffLine::Unchanged(_) => true,
        DiffLine::Removed(spans) => span_bytes(spans@) <= usize::MAX,
        DiffLine::Added(spans) => span_bytes(spans@) <= usize::MAX,
    }
}

/// A run of changed lines with the lines around them, and where it starts on
/// either side. Its lines can be numbered and their bytes counted.
#[derive(Debug)]
pub struct DiffHunk {
    before_start: usize,
    after_start: usize,
    lines: Vec<DiffLine>,
}

/// What a [`DiffHunk`] holds.
pub struct HunkView {
    pub before_start: nat,
    pub after_start: nat,
    pub lines: Seq<DiffLine>,
}

impl View for DiffHunk {
    type V = HunkView;

    closed spec fn view(&self) -> HunkView {
        HunkView {
            before_start: self.before_start as nat,
            after_start: self.after_start as nat,
            lines: self.lines@,
        }
    }
}

impl HunkView {
    /// Every line number and byte offset in the hunk is a `usize`.
    pub open spec fn in_range(self) -> bool {
        &&& self.before_start + self.lines.len() <= usize::MAX
        &&& self.after_start + self.lines.len() <= usize::MAX
        &&& forall|k: int| 0 <= k < self.lines.len() ==> line_fits(#[trigger] self.lines[k])
    }
}

/// Whether the bytes of the spans can be counted.
fn spans_fit(spans: &Vec<DiffSpan>) -> (fit: bool)
    ensures
        fit == (span_bytes(spans@) <= usize::MAX),
{
    let mut total: usize = 0;
    let mut i: usize = 0;
    assert(spans@.take(0) =~= seq![]);
    while i < spans.len()
        invariant
            i <= spans@.len(),
            total == span_bytes(spans@.take(i as int)),
        decreases spans@.len() - i,
    {
        proof {
            assert(spans@.take(i + 1).drop_last() =~= spans@.take(i as int));
            bytes_grow(spans@, i + 1);
        }
        match total.checked_add(spans[i].text.as_str().as_bytes().len()) {
            Some(sum) => total = sum,
            None => return false,
        }
        i += 1;
    }
    assert(spans@.take(i as int) =~= spans@);
    true
}

/// A prefix of the spans holds no more bytes than all of them.
proof fn bytes_grow(spans: Seq<DiffSpan>, k: int)
    requires
        0 <= k <= spans.len(),
    ensures
        span_bytes(spans.take(k)) <= span_bytes(spans),
    decreases spans.len() - k,
{
    if k < spans.len() {
        bytes_grow(spans, k + 1);
        assert(spans.take(k + 1).drop_last() =~= spans.take(k));
    } else {
        assert(spans.take(k) =~= spans);
    }
}

impl DiffHunk {
    #[verifier::type_invariant]
    spec fn fits(self) -> bool {
        self@.in_range()
    }

    /// A hunk, `None` when its lines could not be numbered or their bytes
    /// counted in a `usize`.
    pub fn new(before_start: usize, after_start: usize, lines: Vec<DiffLine>) -> (hunk: Option<
        DiffHunk,
    >)
        ensures
            ({
                let view = HunkView {
                    before_start: before_start as nat,
                    after_start: after_start as nat,
                    lines: lines@,
                };
                match hunk {
                    Some(hunk) => hunk@ == view && view.in_range(),
                    None => !view.in_range(),
                }
            }),
    {
        let count = lines.len();
        if before_start.checked_add(count).is_none() || after_start.checked_add(count).is_none() {
            return None;
        }
        let mut i: usize = 0;
        while i < count
            invariant
                count == lines@.len(),
                i <= count,
                forall|k: int| 0 <= k < i ==> line_fits(#[trigger] lines@[k]),
            decreases count - i,
        {
            let fit = match &lines[i] {
                DiffLine::Unchanged(_) => true,
                DiffLine::Removed(spans) => spans_fit(spans),
                DiffLine::Added(spans) => spans_fit(spans),
            };
            if !fit {
                assert(!line_fits(lines@[i as int]));
                return None;
            }
            i += 1;
        }
        Some(DiffHunk { before_start, after_start, lines })
    }
}

/// How many of the lines are on the old side.
pub open spec fn old_count(lines: Seq<DiffLine>) -> nat
    decreases lines.len(),
{
    if lines.len() == 0 {
        0
    } else if lines.last() is Added {
        old_count(lines.drop_last())
    } else {
        old_count(lines.drop_last()) + 1
    }
}

/// How many of the lines are on the new side.
pub open spec fn new_count(lines: Seq<DiffLine>) -> nat
    decreases lines.len(),
{
    if lines.len() == 0 {
        0
    } else if lines.last() is Removed {
        new_count(lines.drop_last())
    } else {
        new_count(lines.drop_last()) + 1
    }
}

/// The byte ranges of the emphasized spans, in order.
pub open spec fn emphasis(spans: Seq<DiffSpan>) -> Seq<(nat, nat)>
    decreases spans.len(),
{
    if spans.len() == 0 {
        seq![]
    } else if spans.last().emphasized {
        emphasis(spans.drop_last()).push((span_bytes(spans.drop_last()), span_bytes(spans)))
    } else {
        emphasis(spans.drop_last())
    }
}

/// One range of changed bytes.
pub open spec fn range_tree(range: (nat, nat)) -> Json {
    Json::Obj(
        no_fields().insert("start_byte"@, Json::Num(range.0)).insert(
            "end_byte"@,
            Json::Num(range.1),
        ).insert("kind"@, Json::Str("changed"@)),
    )
}

/// The ranges of changed bytes.
pub open spec fn range_trees(ranges: Seq<(nat, nat)>) -> Seq<Json> {
    ranges.map_values(|range: (nat, nat)| range_tree(range))
}

/// The ranges of changed bytes, half-open columns into the line's text.
pub fn emphasis_ranges(spans: &Vec<DiffSpan>) -> (ranges: Vec<Value>)
    requires
        span_bytes(spans@) <= usize::MAX,
    ensures
        trees(ranges@) == range_trees(emphasis(spans@)),
{
    let mut ranges: Vec<Value> = Vec::new();
    let mut offset: usize = 0;
    let mut i: usize = 0;
    assert(spans@.take(0) =~= seq![]);
    assert(trees(ranges@) =~= range_trees(emphasis(spans@.take(0))));
    while i < spans.len()
        invariant
            span_bytes(spans@) <= usize::MAX,
            i <= spans@.len(),
            offset == span_bytes(spans@.take(i as int)),
            trees(ranges@) == range_trees(emphasis(spans@.take(i as int))),
        decreases spans@.len() - i,
    {
        let ghost so_far = emphasis(spans@.take(i as int));
        proof {
            assert(spans@.take(i + 1).drop_last() =~= spans@.take(i as int));
            bytes_grow(spans@, i + 1);
        }
        let start_byte = offset;
        offset = offset + spans[i].text.as_str().as_bytes().len();
        if spans[i].emphasized {
            let mut range = fields();
            put(&mut range, "start_byte", number(start_byte));
            put(&mut range, "end_byte", number(offset));
            put(&mut range, "kind", text("changed"));
            let value = object(range);
            let ghost before = ranges@;
            ranges.push(value);
            proof {
                trees_push(before, value);
                assert(range_trees(so_far.push((start_byte as nat, offset as nat))) =~= range_trees(
                    so_far,
                ).push(range_tree((start_byte as nat, offset as nat))));
            }
        }
        i += 1;
    }
    assert(spans@.take(i as int) =~= spans@);
    ranges
}

/// A line of a hunk with the numbers it has on the sides it is on.
pub open spec fn line_tree(line: DiffLine, old_line: nat, new_line: nat, no_newline: bool) -> Json {
    match line {
        DiffLine::Unchanged(content) => Json::Obj(
            no_fields().insert("kind"@, Json::Str("context"@)).insert(
                "text"@,
                Json::Str(content@),
            ).insert("old_line"@, Json::Num(old_line)).insert(
                "new_line"@,
                Json::Num(new_line),
            ).insert("no_newline_at_eof"@, Json::Bool(no_newline)),
        ),
        DiffLine::Removed(spans) => Json::Obj(
            no_fields().insert("kind"@, Json::Str("remove"@)).insert(
                "text"@,
                Json::Str(span_text(spans@)),
            ).insert("old_line"@, Json::Num(old_line)).insert(
                "emphasis"@,
                Json::Arr(range_trees(emphasis(spans@))),
            ).insert("no_newline_at_eof"@, Json::Bool(no_newline)),
        ),
        DiffLine::Added(spans) => Json::Obj(
            no_fields().insert("kind"@, Json::Str("add"@)).insert(
                "text"@,
                Json::Str(span_text(spans@)),
            ).insert("new_line"@, Json::Num(new_line)).insert(
                "emphasis"@,
                Json::Arr(range_trees(emphasis(spans@))),
            ).insert("no_newline_at_eof"@, Json::Bool(no_newline)),
        ),
    }
}

/// The text of the spans, in order.
fn joined_text(spans: &Vec<DiffSpan>) -> (joined: String)
    ensures
        joined@ == span_text(spans@),
{
    let mut joined = String::new();
    let mut i: usize = 0;
    assert(spans@.take(0) =~= seq![]);
    while i < spans.len()
        invariant
            i <= spans@.len(),
            joined@ == span_text(spans@.take(i as int)),
        decreases spans@.len() - i,
    {
        assert(spans@.take(i + 1).drop_last() =~= spans@.take(i as int));
        joined.append(spans[i].text.as_str());
        i += 1;
    }
    assert(spans@.take(i as int) =~= spans@);
    joined
}

fn line_json(line: &DiffLine, old_line: usize, new_line: usize, no_newline: bool) -> (value: Value)
    requires
        line_fits(*line),
    ensures
        json_tree(value) == line_tree(*line, old_line as nat, new_line as nat, no_newline),
{
    let mut made = fields();
    match line {
        DiffLine::Unchanged(content) => {
            put(&mut made, "kind", text("context"));
            put(&mut made, "text", text(content.as_str()));
            put(&mut made, "old_line", number(old_line));
            put(&mut made, "new_line", number(new_line));
        },
        DiffLine::Removed(spans) => {
            put(&mut made, "kind", text("remove"));
            put(&mut made, "text", text(joined_text(spans).as_str()));
            put(&mut made, "old_line", number(old_line));
            put(&mut made, "emphasis", list(emphasis_ranges(spans)));
        },
        DiffLine::Added(spans) => {
            put(&mut made, "kind", text("add"));
            put(&mut made, "text", text(joined_text(spans).as_str()));
            put(&mut made, "new_line", number(new_line));
            put(&mut made, "emphasis", list(emphasis_ranges(spans)));
        },
    }
    put(&mut made, "no_newline_at_eof", flag(no_newline));
    object(made)
}

/// Whether a text ends in a line feed.
pub open spec fn ends_line(s: Seq<char>) -> bool {
    s.len() > 0 && s.last() == '\n'
}

/// Where the old side of a hunk starts: nowhere when it is empty.
pub open spec fn old_start(hunk: HunkView) -> nat {
    if old_count(hunk.lines) > 0 {
        hunk.before_start
    } else {
        0
    }
}

/// Where the new side of a hunk starts: nowhere when it is empty.
pub open spec fn new_start(hunk: HunkView) -> nat {
    if new_count(hunk.lines) > 0 {
        hunk.after_start
    } else {
        0
    }
}

/// Whether a line is the hunk's last and a side it belongs to does not end in
/// a line feed.
pub open spec fn lacks_newline(hunk: HunkView, k: int, before: Seq<char>, after: Seq<char>) -> bool {
    &&& k == hunk.lines.len() - 1
    &&& (old_count(hunk.lines) > 0 && !ends_line(before)) || (new_count(hunk.lines) > 0
        && !ends_line(after))
}

/// The lines of a hunk, each numbered by the lines before it on its side.
pub open spec fn hunk_line_trees(hunk: HunkView, before: Seq<char>, after: Seq<char>) -> Seq<Json> {
    Seq::new(
        hunk.lines.len(),
        |k: int|
            line_tree(
                hunk.lines[k],
                old_start(hunk) + old_count(hunk.lines.take(k)),
                new_start(hunk) + new_count(hunk.lines.take(k)),
                lacks_newline(hunk, k, before, after),
            ),
    )
}

/// A hunk: where it starts and how long it is on either side, and its lines.
pub open spec fn hunk_tree(hunk: HunkView, before: Seq<char>, after: Seq<char>) -> Json {
    Json::Obj(
        no_fields().insert("old_start"@, Json::Num(old_start(hunk))).insert(
            "old_count"@,
            Json::Num(old_count(hunk.lines)),
        ).insert("new_start"@, Json::Num(new_start(hunk))).insert(
            "new_count"@,
            Json::Num(new_count(hunk.lines)),
        ).insert("lines"@, Json::Arr(hunk_line_trees(hunk, before, after))),
    )
}

/// What kind of change the diff is.
pub open spec fn mode_name(before: Seq<char>, after: Seq<char>) -> Seq<char> {
    if before.len() == 0 {
        "new"@
    } else if after.len() == 0 {
        "delete"@
    } else {
        "edit"@
    }
}

/// The hunks of a diff.
pub open spec fn hunk_trees(hunks: Seq<DiffHunk>, before: Seq<char>, after: Seq<char>) -> Seq<
    Json,
> {
    Seq::new(hunks.len(), |k: int| hunk_tree(hunks[k]@, before, after))
}

/// A diff: its hunks and both sources, unchanged.
pub open spec fn diff_tree(
    path: Seq<char>,
    before: Seq<char>,
    after: Seq<char>,
    summary: Seq<char>,
    hunks: Seq<DiffHunk>,
) -> Json {
    let sources = Json::Obj(
        no_fields().insert("before"@, Json::Str(before)).insert("after"@, Json::Str(after)),
    );
    Json::Obj(
        no_fields().insert("path"@, Json::Str(path)).insert("summary"@, Json::Str(summary)).insert(
            "mode"@,
            Json::Str(mode_name(before, after)),
        ).insert("hunks"@, Json::Arr(hunk_trees(hunks, before, after))).insert(
            "sources"@,
            sources,
        ),
    )
}

/// A prefix of the lines has no more of either side than all of them.
pub proof fn counts_grow(lines: Seq<DiffLine>, k: int)
    requires
        0 <= k <= lines.len(),
    ensures
        old_count(lines.take(k)) <= k,
        new_count(lines.take(k)) <= k,
        old_count(lines.take(k)) <= old_count(lines),
        new_count(lines.take(k)) <= new_count(lines),
    decreases lines.len(),
{
    if k < lines.len() {
        counts_grow(lines.drop_last(), k);
        assert(lines.drop_last().take(k) =~= lines.take(k));
    } else {
        assert(lines.take(k) =~= lines);
        if lines.len() > 0 {
            counts_grow(lines.drop_last(), lines.len() - 1);
            assert(lines.drop_last().take(lines.len() - 1) =~= lines.drop_last());
        }
    }
}

/// Whether a text ends in a line feed.
fn has_final_newline(s: &str) -> (has: bool)
    ensures
        has == ends_line(s@),
{
    let mut has = false;
    for ch in it: s.chars()
        invariant
            it.seq() == s@,
            it.index() <= s@.len(),
            has == (it.index() > 0 && s@[it.index() - 1] == '\n'),
    {
        has = ch == '\n';
    }
    has
}

fn hunk_json(
    hunk: &DiffHunk,
    Ghost(before): Ghost<Seq<char>>,
    Ghost(after): Ghost<Seq<char>>,
    before_ends: bool,
    after_ends: bool,
) -> (value: Value)
    requires
        before_ends == ends_line(before),
        after_ends == ends_line(after),
    ensures
        json_tree(value) == hunk_tree(hunk@, before, after),
{
    proof {
        use_type_invariant(hunk);
    }
    let ghost view = hunk@;
    let mut olds: usize = 0;
    let mut news: usize = 0;
    let mut i: usize = 0;
    assert(view.lines.take(0) =~= seq![]);
    while i < hunk.lines.len()
        invariant
            view == hunk@,
            view.lines == hunk.lines@,
            i <= view.lines.len(),
            olds == old_count(view.lines.take(i as int)),
            news == new_count(view.lines.take(i as int)),
            olds <= i,
            news <= i,
        decreases view.lines.len() - i,
    {
        assert(view.lines.take(i + 1).drop_last() =~= view.lines.take(i as int));
        match &hunk.lines[i] {
            DiffLine::Unchanged(_) => {
                olds += 1;
                news += 1;
            },
            DiffLine::Removed(_) => {
                olds += 1;
            },
            DiffLine::Added(_) => {
                news += 1;
            },
        }
        i += 1;
    }
    assert(view.lines.take(i as int) =~= view.lines);
    let start_old = if olds > 0 {
        hunk.before_start
    } else {
        0
    };
    let start_new = if news > 0 {
        hunk.after_start
    } else {
        0
    };
    let lacks = (olds > 0 && !before_ends) || (news > 0 && !after_ends);
    let ghost all = hunk_line_trees(view, before, after);
    let mut lines: Vec<Value> = Vec::new();
    let mut old_line = start_old;
    let mut new_line = start_new;
    let mut i: usize = 0;
    assert(view.lines.take(0) =~= seq![]);
    assert(trees(lines@) =~= all.take(0));
    while i < hunk.lines.len()
        invariant
            view == hunk@,
            view.lines == hunk.lines@,
            view.in_range(),
            start_old == old_start(view),
            start_new == new_start(view),
            start_old <= view.before_start,
            start_new <= view.after_start,
            lacks == ((old_count(view.lines) > 0 && !ends_line(before)) || (new_count(view.lines)
                > 0 && !ends_line(after))),
            all == hunk_line_trees(view, before, after),
            i <= view.lines.len(),
            old_line == start_old + old_count(view.lines.take(i as int)),
            new_line == start_new + new_count(view.lines.take(i as int)),
            trees(lines@) == all.take(i as int),
        decreases view.lines.len() - i,
    {
        proof {
            counts_grow(view.lines, i as int);
            assert(view.lines.take(i + 1).drop_last() =~= view.lines.take(i as int));
            assert(line_fits(view.lines[i as int]));
        }
        let ghost made = lines@;
        let last = i == hunk.lines.len() - 1;
        let value = line_json(&hunk.lines[i], old_line, new_line, last && lacks);
        lines.push(value);
        proof {
            trees_push(made, value);
            assert(all.take(i + 1) =~= all.take(i as int).push(all[i as int]));
        }
        match &hunk.lines[i] {
            DiffLine::Unchanged(_) => {
                old_line += 1;
                new_line += 1;
            },
            DiffLine::Removed(_) => {
                old_line += 1;
            },
            DiffLine::Added(_) => {
                new_line += 1;
            },
        }
        i += 1;
    }
    assert(all.take(i as int) =~= all);
    let mut made = fields();
    put(&mut made, "old_start", number(start_old));
    put(&mut made, "old_count", number(olds));
    put(&mut made, "new_start", number(start_new));
    put(&mut made, "new_count", number(news));
    put(&mut made, "lines", list(lines));
    object(made)
}

/// A diff as structured hunks, with both sources unchanged: syntax state at a
/// hunk depends on every line above it. `hunks` are the hunks that lead from
/// `before` to `after`.
pub fn diff_projection(
    path: &str,
    before: &str,
    after: &str,
    summary: &str,
    hunks: &Vec<DiffHunk>,
) -> (value: Value)
    ensures
        json_tree(value) == diff_tree(path@, before@, after@, summary@, hunks@),
{
    let before_ends = has_final_newline(before);
    let after_ends = has_final_newline(after);
    let ghost all = hunk_trees(hunks@, before@, after@);
    let mut made: Vec<Value> = Vec::new();
    let mut i: usize = 0;
    assert(trees(made@) =~= all.take(0));
    while i < hunks.len()
        invariant
            before_ends == ends_line(before@),
            after_ends == ends_line(after@),
            all == hunk_trees(hunks@, before@, after@),
            i <= hunks@.len(),
            trees(made@) == all.take(i as int),
        decreases hunks@.len() - i,
    {
        let ghost done = made@;
        let value = hunk_json(&hunks[i], Ghost(before@), Ghost(after@), before_ends, after_ends);
        made.push(value);
        proof {
            trees_push(done, value);
            assert(all.take(i + 1) =~= all.take(i as int).push(all[i as int]));
        }
        i += 1;
    }
    assert(all.take(i as int) =~= all);
    let mode = if before.is_empty() {
        "new"
    } else if after.is_empty() {
        "delete"
    } else {
        "edit"
    };
    let mut sources = fields();
    put(&mut sources, "before", text(before));
    put(&mut sources, "after", text(after));
    let mut diff = fields();
    put(&mut diff, "path", text(path));
    put(&mut diff, "summary", text(summary));
    put(&mut diff, "mode", text(mode));
    put(&mut diff, "hunks", list(made));
    put(&mut diff, "sources", object(sources));
    object(diff)
}

} // verus!
