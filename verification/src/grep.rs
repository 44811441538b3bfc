//! Grep results as structured matches with validated byte ranges.

use crate::json::{
    fields, flag, json_tree, list, no_fields, null, number, object, put, text, trees, trees_push,
    Json,
};
use crate::message::{ByteRange, GrepFileEntry, GrepLine, GrepMatchGroup};
use serde_json::Value;
use vstd::prelude::*;
use vstd::utf8::{encode_utf8, is_char_boundary};

verus! {

/// What the host's row budget makes of a grep result.
#[derive(Debug, Clone, Copy, PartialEq, Eq, Structural)]
pub struct GrepPlan {
    /// Rows drawn, file headers and group separators counted.
    pub rows: usize,
    /// Rows there would be without a budget.
    pub total_rows: usize,
    pub truncated: bool,
    /// Matches the budget dropped.
    pub hidden_matches: usize,
}

/// Whether a range can be sliced out of a text: in order, in bounds, and cut
/// between characters.
pub open spec fn sliceable(s: Seq<char>, range: ByteRange) -> bool {
    &&& range.start <= range.end
    &&& range.end <= encode_utf8(s).len()
    &&& is_char_boundary(encode_utf8(s), range.start as int)
    &&& is_char_boundary(encode_utf8(s), range.end as int)
}

/// Whether every match range of a line can be sliced out of its text.
pub open spec fn ranges_valid(line: GrepLine) -> bool {
    forall|k: int|
        0 <= k < line.match_ranges@.len() ==> sliceable(
            line.text@,
            #[trigger] line.match_ranges@[k],
        )
}

/// The match ranges of a line, `None` when any of them is not valid.
pub fn valid_match_ranges(line: &GrepLine) -> (ranges: Option<&Vec<ByteRange>>)
    ensures
        match ranges {
            Some(ranges) => ranges_valid(*line) && *ranges == line.match_ranges,
            None => !ranges_valid(*line),
        },
{
    let len = line.text.as_str().as_bytes().len();
    let mut i: usize = 0;
    while i < line.match_ranges.len()
        invariant
            len == encode_utf8(line.text@).len(),
            i <= line.match_ranges@.len(),
            forall|k: int|
                0 <= k < i ==> sliceable(line.text@, #[trigger] line.match_ranges@[k]),
        decreases line.match_ranges@.len() - i,
    {
        let range = line.match_ranges[i];
        let source = line.text.as_str();
        if range.start > range.end || range.end > len || !source.is_char_boundary(range.start)
            || !source.is_char_boundary(range.end) {
            assert(!sliceable(line.text@, line.match_ranges@[i as int]));
            return None;
        }
        i += 1;
    }
    Some(&line.match_ranges)
}

/// One match range.
pub open spec fn match_tree(range: ByteRange) -> Json {
    Json::Obj(
        no_fields().insert("start_byte"@, Json::Num(range.start as nat)).insert(
            "end_byte"@,
            Json::Num(range.end as nat),
        ),
    )
}

/// The match ranges of a line: all of them, or none when one is not valid.
pub open spec fn match_trees(line: GrepLine) -> Seq<Json> {
    if ranges_valid(line) {
        line.match_ranges@.map_values(|range: ByteRange| match_tree(range))
    } else {
        seq![]
    }
}

fn match_ranges(line: &GrepLine) -> (value: Value)
    ensures
        json_tree(value) == Json::Arr(match_trees(*line)),
{
    let ghost all = match_trees(*line);
    let mut made: Vec<Value> = Vec::new();
    assert(trees(made@) =~= seq![]);
    if let Some(ranges) = valid_match_ranges(line) {
        let mut i: usize = 0;
        assert(all.take(0) =~= seq![]);
        while i < ranges.len()
            invariant
                ranges_valid(*line),
                *ranges == line.match_ranges,
                all == match_trees(*line),
                i <= ranges@.len(),
                trees(made@) == all.take(i as int),
            decreases ranges@.len() - i,
        {
            let ghost before = made@;
            let mut range = fields();
            put(&mut range, "start_byte", number(ranges[i].start));
            put(&mut range, "end_byte", number(ranges[i].end));
            let value = object(range);
            made.push(value);
            proof {
                trees_push(before, value);
                assert(all.take(i + 1) =~= all.take(i as int).push(all[i as int]));
            }
            i += 1;
        }
        assert(all.take(i as int) =~= all);
    }
    list(made)
}

/// A line of grep output. `is_match` is what grep reported, not what the
/// ranges say.
pub open spec fn line_tree(line: GrepLine) -> Json {
    Json::Obj(
        no_fields().insert("line"@, Json::Num(line.line_nr as nat)).insert(
            "text"@,
            Json::Str(line.text@),
        ).insert("is_match"@, Json::Bool(line.is_match)).insert(
            "ranges"@,
            Json::Arr(match_trees(line)),
        ),
    )
}

/// Adjacent lines of grep output.
pub open spec fn group_tree(group: GrepMatchGroup) -> Json {
    Json::Obj(
        no_fields().insert(
            "lines"@,
            Json::Arr(group.lines@.map_values(|line: GrepLine| line_tree(line))),
        ),
    )
}

/// The matches in one file.
pub open spec fn entry_tree(entry: GrepFileEntry) -> Json {
    Json::Obj(
        no_fields().insert("path"@, Json::Str(entry.path@)).insert(
            "display"@,
            Json::Str(entry.path@),
        ).insert(
            "groups"@,
            Json::Arr(entry.groups@.map_values(|group: GrepMatchGroup| group_tree(group))),
        ),
    )
}

/// A grep result: its matches, how much of it is drawn, and what to show when
/// there are none.
pub open spec fn grep_tree(
    entries: Seq<GrepFileEntry>,
    limit: nat,
    expanded: bool,
    plan: GrepPlan,
) -> Json {
    let truncation = if plan.truncated {
        Json::Obj(no_fields().insert("hidden_matches"@, Json::Num(plan.hidden_matches as nat)))
    } else {
        Json::Null
    };
    let empty = if entries.len() == 0 {
        Json::Obj(
            no_fields().insert("label"@, Json::Str("No files found"@)).insert(
                "group"@,
                Json::Str("grep.empty"@),
            ),
        )
    } else {
        Json::Null
    };
    let counts = Json::Obj(
        no_fields().insert("configured"@, Json::Num(limit)).insert(
            "visible_lines"@,
            Json::Num(plan.rows as nat),
        ).insert("total_lines"@, Json::Num(plan.total_rows as nat)),
    );
    let display = Json::Obj(
        no_fields().insert("expanded"@, Json::Bool(expanded)).insert("limit"@, counts).insert(
            "truncation"@,
            truncation,
        ),
    );
    Json::Obj(
        no_fields().insert(
            "entries"@,
            Json::Arr(entries.map_values(|entry: GrepFileEntry| entry_tree(entry))),
        ).insert("display"@, display).insert("empty"@, empty),
    )
}

fn line_json(line: &GrepLine) -> (value: Value)
    ensures
        json_tree(value) == line_tree(*line),
{
    let mut made = fields();
    put(&mut made, "line", number(line.line_nr));
    put(&mut made, "text", text(line.text.as_str()));
    put(&mut made, "is_match", flag(line.is_match));
    put(&mut made, "ranges", match_ranges(line));
    object(made)
}

fn group_json(group: &GrepMatchGroup) -> (value: Value)
    ensures
        json_tree(value) == group_tree(*group),
{
    let ghost all = group.lines@.map_values(|line: GrepLine| line_tree(line));
    let mut lines: Vec<Value> = Vec::new();
    let mut i: usize = 0;
    assert(trees(lines@) =~= all.take(0));
    while i < group.lines.len()
        invariant
            all == group.lines@.map_values(|line: GrepLine| line_tree(line)),
            i <= group.lines@.len(),
            trees(lines@) == all.take(i as int),
        decreases group.lines@.len() - i,
    {
        let ghost before = lines@;
        let value = line_json(&group.lines[i]);
        lines.push(value);
        proof {
            trees_push(before, value);
            assert(all.take(i + 1) =~= all.take(i as int).push(all[i as int]));
        }
        i += 1;
    }
    assert(all.take(i as int) =~= all);
    let mut made = fields();
    put(&mut made, "lines", list(lines));
    object(made)
}

fn entry_json(entry: &GrepFileEntry) -> (value: Value)
    ensures
        json_tree(value) == entry_tree(*entry),
{
    let ghost all = entry.groups@.map_values(|group: GrepMatchGroup| group_tree(group));
    let mut groups: Vec<Value> = Vec::new();
    let mut i: usize = 0;
    assert(trees(groups@) =~= all.take(0));
    while i < entry.groups.len()
        invariant
            all == entry.groups@.map_values(|group: GrepMatchGroup| group_tree(group)),
            i <= entry.groups@.len(),
            trees(groups@) == all.take(i as int),
        decreases entry.groups@.len() - i,
    {
        let ghost before = groups@;
        let value = group_json(&entry.groups[i]);
        groups.push(value);
        proof {
            trees_push(before, value);
            assert(all.take(i + 1) =~= all.take(i as int).push(all[i as int]));
        }
        i += 1;
    }
    assert(all.take(i as int) =~= all);
    let mut made = fields();
    put(&mut made, "path", text(entry.path.as_str()));
    put(&mut made, "display", text(entry.path.as_str()));
    put(&mut made, "groups", list(groups));
    object(made)
}

/// A grep result as structured matches. `plan` is what the host's row budget
/// makes of the entries, so the projection reads the same plan the transcript
/// paints.
pub fn grep_projection(
    entries: &Vec<GrepFileEntry>,
    limit: usize,
    expanded: bool,
    plan: GrepPlan,
) -> (value: Value)
    ensures
        json_tree(value) == grep_tree(entries@, limit as nat, expanded, plan),
{
    let truncation = if plan.truncated {
        let mut hidden = fields();
        put(&mut hidden, "hidden_matches", number(plan.hidden_matches));
        object(hidden)
    } else {
        null()
    };
    let empty = if entries.len() == 0 {
        let mut none = fields();
        put(&mut none, "label", text("No files found"));
        put(&mut none, "group", text("grep.empty"));
        object(none)
    } else {
        null()
    };
    let mut counts = fields();
    put(&mut counts, "configured", number(limit));
    put(&mut counts, "visible_lines", number(plan.rows));
    put(&mut counts, "total_lines", number(plan.total_rows));
    let mut display = fields();
    put(&mut display, "expanded", flag(expanded));
    put(&mut display, "limit", object(counts));
    put(&mut display, "truncation", truncation);
    let ghost all = entries@.map_values(|entry: GrepFileEntry| entry_tree(entry));
    let mut files: Vec<Value> = Vec::new();
    let mut i: usize = 0;
    assert(trees(files@) =~= all.take(0));
    while i < entries.len()
        invariant
            all == entries@.map_values(|entry: GrepFileEntry| entry_tree(entry)),
            i <= entries@.len(),
            trees(files@) == all.take(i as int),
        decreases entries@.len() - i,
    {
        let ghost before = files@;
        let value = entry_json(&entries[i]);
        files.push(value);
        proof {
            trees_push(before, value);
            assert(all.take(i + 1) =~= all.take(i as int).push(all[i as int]));
        }
        i += 1;
    }
    assert(all.take(i as int) =~= all);
    let mut grep = fields();
    put(&mut grep, "entries", list(files));
    put(&mut grep, "display", object(display));
    put(&mut grep, "empty", empty);
    object(grep)
}

} // verus!
