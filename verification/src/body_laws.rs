//! What holds of every body window and line count.

use crate::body::{
    body_tree, display_tree, line_count, newlines, shown, text_body_tree, todo_body_tree,
    todo_tree, trimmed,
};
use crate::json::{field, Json};
use crate::message::{TodoItem, ToolOutput};
use vstd::prelude::*;

verus! {

proof fn display_fields(total: nat, visible: nat, configured: nat, expanded: bool)
    ensures
        ({
            let display = display_tree(total, visible, configured, expanded);
            let limit = field(display, "limit"@);
            let truncation = field(display, "truncation"@);
            &&& field(display, "expanded"@) == Json::Bool(expanded)
            &&& field(limit, "configured"@) == Json::Num(configured)
            &&& field(limit, "visible_lines"@) == Json::Num(visible)
            &&& field(limit, "total_lines"@) == Json::Num(total)
            &&& total <= visible <==> truncation == Json::Null
            &&& total > visible ==> {
                &&& field(truncation, "head_hidden"@) == Json::Num(0)
                &&& field(truncation, "tail_hidden"@) == Json::Num((total - visible) as nat)
                &&& field(truncation, "visible_start"@) == Json::Num(
                    if visible == 0 {
                        0
                    } else {
                        1
                    },
                )
                &&& field(truncation, "visible_end"@) == Json::Num(visible)
            }
        }),
{
    reveal_strlit("expanded");
    assert("expanded"@.len() == 8);
    reveal_strlit("limit");
    assert("limit"@.len() == 5);
    reveal_strlit("truncation");
    assert("truncation"@.len() == 10);
    reveal_strlit("configured");
    assert("configured"@.len() == 10);
    reveal_strlit("visible_lines");
    assert("visible_lines"@.len() == 13);
    reveal_strlit("total_lines");
    assert("total_lines"@.len() == 11);
    reveal_strlit("head_hidden");
    assert("head_hidden"@.len() == 11);
    reveal_strlit("tail_hidden");
    assert("tail_hidden"@.len() == 11);
    reveal_strlit("visible_start");
    assert("visible_start"@.len() == 13);
    reveal_strlit("visible_end");
    assert("visible_end"@.len() == 11);
    assert("head_hidden"@[0] != "tail_hidden"@[0]);
    assert("head_hidden"@[0] != "visible_end"@[0]);
    assert("tail_hidden"@[0] != "visible_end"@[0]);
}

/// A truncation is there exactly when something is hidden, and then what is
/// hidden before the window, the window, and what is hidden behind it add up
/// to the whole. The window is given by its first and last entry, counted
/// from one.
pub proof fn a_truncation_adds_up(total: nat, visible: nat, configured: nat, expanded: bool)
    requires
        visible <= total,
    ensures
        ({
            let display = display_tree(total, visible, configured, expanded);
            let limit = field(display, "limit"@);
            let truncation = field(display, "truncation"@);
            &&& truncation == Json::Null <==> visible == total
            &&& truncation != Json::Null ==> {
                &&& field(truncation, "head_hidden"@) matches Json::Num(head)
                &&& field(truncation, "tail_hidden"@) matches Json::Num(tail)
                &&& field(limit, "visible_lines"@) matches Json::Num(window)
                &&& field(limit, "total_lines"@) matches Json::Num(all)
                &&& field(truncation, "visible_start"@) matches Json::Num(first)
                &&& field(truncation, "visible_end"@) matches Json::Num(last)
                &&& head + window + tail == all
                &&& tail > 0
                &&& window > 0 ==> first == head + 1 && last == head + window
                &&& window == 0 ==> first == 0 && last == 0
            }
        }),
{
    display_fields(total, visible, configured, expanded);
}

/// The budget never hides everything: an empty window means an empty source.
pub proof fn a_window_is_empty_only_for_an_empty_source(total: nat, limit: nat, expanded: bool)
    ensures
        shown(total, limit, expanded) == 0 ==> total == 0,
        shown(total, limit, expanded) <= total,
{
}

/// An expanded body, and one without a budget, is shown whole.
pub proof fn an_expanded_body_is_shown_whole(output: ToolOutput, limit: nat)
    ensures
        body_tree(output, limit, true) matches Some(body) ==> field(
            field(body, "display"@),
            "truncation"@,
        ) == Json::Null,
        body_tree(output, 0, false) matches Some(body) ==> field(
            field(body, "display"@),
            "truncation"@,
        ) == Json::Null,
{
    reveal_strlit("kind");
    assert("kind"@.len() == 4);
    reveal_strlit("text");
    assert("text"@.len() == 4);
    reveal_strlit("legacy");
    assert("legacy"@.len() == 6);
    reveal_strlit("items");
    assert("items"@.len() == 5);
    reveal_strlit("empty");
    assert("empty"@.len() == 5);
    reveal_strlit("display");
    assert("display"@.len() == 7);
    assert forall|total: nat, l: nat, e: bool| #[trigger]
        field(display_tree(total, total, l, e), "truncation"@) == Json::Null by {
        display_fields(total, total, l, e);
    }
}

/// A body carries the source text unchanged, however little of it is shown.
pub proof fn a_body_keeps_its_source(
    kind: Seq<char>,
    source: Seq<char>,
    legacy: bool,
    limit: nat,
    expanded: bool,
)
    ensures
        field(text_body_tree(kind, source, legacy, limit, expanded), "text"@) == Json::Str(source),
        field(text_body_tree(kind, source, legacy, limit, expanded), "kind"@) == Json::Str(kind),
{
    reveal_strlit("kind");
    assert("kind"@.len() == 4);
    reveal_strlit("text");
    assert("text"@.len() == 4);
    reveal_strlit("legacy");
    assert("legacy"@.len() == 6);
    reveal_strlit("display");
    assert("display"@.len() == 7);
    assert("kind"@[0] != "text"@[0]);
}

/// A todo body offers its empty state exactly when it has no items.
pub proof fn a_todo_body_is_empty_without_items(items: Seq<TodoItem>, limit: nat, expanded: bool)
    ensures
        field(todo_body_tree(items, limit, expanded), "empty"@) != Json::Null <==> items.len()
            == 0,
{
    reveal_strlit("kind");
    assert("kind"@.len() == 4);
    reveal_strlit("items");
    assert("items"@.len() == 5);
    reveal_strlit("empty");
    assert("empty"@.len() == 5);
    reveal_strlit("display");
    assert("display"@.len() == 7);
    assert("items"@[0] != "empty"@[0]);
}

/// A todo item's marker is its status.
pub proof fn a_todo_marker_is_its_status(item: TodoItem)
    ensures
        field(todo_tree(item), "marker"@) == field(todo_tree(item), "status"@),
        field(todo_tree(item), "content"@) == Json::Str(item.content@),
{
    reveal_strlit("content");
    assert("content"@.len() == 7);
    reveal_strlit("status");
    assert("status"@.len() == 6);
    reveal_strlit("priority");
    assert("priority"@.len() == 8);
    reveal_strlit("marker");
    assert("marker"@.len() == 6);
    assert("status"@[0] != "marker"@[0]);
}

proof fn newlines_concat(a: Seq<char>, b: Seq<char>)
    ensures
        newlines(a + b) == newlines(a) + newlines(b),
    decreases b.len(),
{
    if b.len() == 0 {
        assert(a + b =~= a);
    } else {
        newlines_concat(a, b.drop_last());
        assert((a + b).drop_last() =~= a + b.drop_last());
        assert((a + b).last() == b.last());
    }
}

/// Lines add up: the lines of a text that ends in a line feed, and of what
/// follows it, are the lines of both together.
pub proof fn lines_add_up(a: Seq<char>, b: Seq<char>)
    requires
        a.len() == 0 || a.last() == '\n',
    ensures
        line_count(a + b) == line_count(a) + line_count(b),
{
    newlines_concat(a, b);
    if b.len() > 0 {
        assert((a + b).last() == b.last());
    } else {
        assert(a + b =~= a);
    }
}

/// A line feed at the end of a line adds no line.
pub proof fn a_final_newline_adds_no_line(s: Seq<char>)
    requires
        s.len() > 0,
        s.last() != '\n',
    ensures
        line_count(s.push('\n')) == line_count(s),
{
    assert(s.push('\n').drop_last() =~= s);
}

/// Only an empty text has no lines.
pub proof fn only_an_empty_text_has_no_lines(s: Seq<char>)
    ensures
        line_count(s) == 0 <==> s.len() == 0,
{
    if s.len() > 0 {
        assert(newlines(s) >= 1 || s.last() != '\n');
    }
}

/// Leaving out the blank lines at its end never makes a text longer, and
/// leaves none there.
pub proof fn trimming_drops_only_final_newlines(s: Seq<char>)
    ensures
        trimmed(s).len() <= s.len(),
        trimmed(s) == s.take(trimmed(s).len() as int),
        forall|k: int| trimmed(s).len() <= k < s.len() ==> s[k] == '\n',
        trimmed(s).len() > 0 ==> trimmed(s).last() != '\n',
        line_count(trimmed(s)) <= line_count(s),
    decreases s.len(),
{
    if s.len() > 0 && s.last() == '\n' {
        let t = s.drop_last();
        trimming_drops_only_final_newlines(t);
        assert(trimmed(s) =~= s.take(trimmed(s).len() as int)) by {
            assert(t.take(trimmed(s).len() as int) =~= s.take(trimmed(s).len() as int));
        }
        assert forall|k: int| trimmed(s).len() <= k < s.len() implies s[k] == '\n' by {
            if k < t.len() {
                assert(t[k] == s[k]);
            }
        }
        assert(line_count(t) <= newlines(t) + 1);
    } else {
        assert(s.take(s.len() as int) =~= s);
    }
}

} // verus!
