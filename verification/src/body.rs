//! Text and todo bodies: line counts, the display window, and the structured
//! body a renderer receives.

use crate::json::{
    fields, flag, json_tree, list, no_fields, null, number, object, put, text, trees, trees_push,
    Json,
};
use crate::message::{TodoItem, TodoPriority, TodoStatus, ToolOutput};
use serde_json::Value;
use vstd::prelude::*;

verus! {

/// How many line feeds a text holds.
pub open spec fn newlines(s: Seq<char>) -> nat
    decreases s.len(),
{
    if s.len() == 0 {
        0
    } else if s.last() == '\n' {
        newlines(s.drop_last()) + 1
    } else {
        newlines(s.drop_last())
    }
}

/// How many lines a text holds. A line feed ends a line; text behind the last
/// one is a line of its own.
pub open spec fn line_count(s: Seq<char>) -> nat {
    if s.len() > 0 && s.last() != '\n' {
        newlines(s) + 1
    } else {
        newlines(s)
    }
}

/// A text without the line feeds at its end.
pub open spec fn trimmed(s: Seq<char>) -> Seq<char>
    decreases s.len(),
{
    if s.len() > 0 && s.last() == '\n' {
        trimmed(s.drop_last())
    } else {
        s
    }
}

/// Each character takes at least one byte.
pub proof fn bytes_cover_chars(s: Seq<char>)
    ensures
        s.len() <= vstd::utf8::encode_utf8(s).len(),
    decreases s.len(),
{
    if s.len() > 0 {
        bytes_cover_chars(s.drop_first());
        vstd::utf8::char_is_scalar(s[0]);
    }
}

proof fn newlines_bound(s: Seq<char>)
    ensures
        newlines(s) <= s.len(),
    decreases s.len(),
{
    if s.len() > 0 {
        newlines_bound(s.drop_last());
    }
}

/// How many lines a text holds.
pub fn logical_line_count(text: &str) -> (count: usize)
    ensures
        count == line_count(text@),
{
    let bytes = text.as_bytes().len();
    proof {
        bytes_cover_chars(text@);
    }
    let mut ended: usize = 0;
    let mut open = false;
    assert(text@.take(0) =~= seq![]);
    for ch in it: text.chars()
        invariant
            it.seq() == text@,
            text@.len() <= bytes,
            it.index() <= text@.len(),
            ended == newlines(text@.take(it.index() as int)),
            open == (it.index() > 0 && text@[it.index() - 1] != '\n'),
    {
        proof {
            let i = it.index() as int;
            assert(text@.take(i + 1).drop_last() =~= text@.take(i));
            assert(text@.take(i + 1).last() == ch);
            newlines_bound(text@.take(i));
        }
        if ch == '\n' {
            ended += 1;
            open = false;
        } else {
            open = true;
        }
    }
    assert(text@.take(text@.len() as int) =~= text@);
    proof {
        newlines_bound(text@);
        if open {
            newlines_bound(text@.drop_last());
        }
    }
    if open {
        ended + 1
    } else {
        ended
    }
}

/// How many lines a piece of code holds, blank lines at its end not counted.
pub fn code_line_count(code: &str) -> (count: usize)
    ensures
        count == line_count(trimmed(code@)),
{
    let bytes = code.as_bytes().len();
    proof {
        bytes_cover_chars(code@);
    }
    let mut ended: usize = 0;
    let mut count: usize = 0;
    assert(code@.take(0) =~= seq![]);
    for ch in it: code.chars()
        invariant
            it.seq() == code@,
            code@.len() <= bytes,
            it.index() <= code@.len(),
            ended == newlines(code@.take(it.index() as int)),
            count == line_count(trimmed(code@.take(it.index() as int))),
    {
        proof {
            let i = it.index() as int;
            assert(code@.take(i + 1).drop_last() =~= code@.take(i));
            assert(code@.take(i + 1).last() == ch);
            newlines_bound(code@.take(i));
        }
        if ch == '\n' {
            ended += 1;
        } else {
            count = ended + 1;
        }
    }
    assert(code@.take(code@.len() as int) =~= code@);
    count
}

/// How many of `total` entries the budget shows. A budget of zero is no
/// budget.
pub open spec fn shown(total: nat, limit: nat, expanded: bool) -> nat {
    if expanded || limit == 0 || total <= limit {
        total
    } else {
        limit
    }
}

/// How many of `total_lines` entries the budget shows.
pub fn visible_lines(total_lines: usize, limit: usize, expanded: bool) -> (visible: usize)
    ensures
        visible == shown(total_lines as nat, limit as nat, expanded),
{
    if expanded || limit == 0 || total_lines <= limit {
        total_lines
    } else {
        limit
    }
}

/// The display state of a body: what is visible of how much, and which part
/// is hidden when any is.
pub open spec fn display_tree(total: nat, visible: nat, configured: nat, expanded: bool) -> Json {
    let truncation = if total > visible {
        Json::Obj(
            no_fields().insert("head_hidden"@, Json::Num(0)).insert(
                "tail_hidden"@,
                Json::Num((total - visible) as nat),
            ).insert(
                "visible_start"@,
                Json::Num(
                    if visible == 0 {
                        0
                    } else {
                        1
                    },
                ),
            ).insert("visible_end"@, Json::Num(visible)),
        )
    } else {
        Json::Null
    };
    let limit = Json::Obj(
        no_fields().insert("configured"@, Json::Num(configured)).insert(
            "visible_lines"@,
            Json::Num(visible),
        ).insert("total_lines"@, Json::Num(total)),
    );
    Json::Obj(
        no_fields().insert("expanded"@, Json::Bool(expanded)).insert("limit"@, limit).insert(
            "truncation"@,
            truncation,
        ),
    )
}

/// The display state of a body. Text is only ever cut at its end.
pub fn body_display(
    total_lines: usize,
    visible_lines: usize,
    configured: usize,
    expanded: bool,
) -> (value: Value)
    ensures
        json_tree(value) == display_tree(
            total_lines as nat,
            visible_lines as nat,
            configured as nat,
            expanded,
        ),
{
    let truncation = if total_lines > visible_lines {
        let mut window = fields();
        put(&mut window, "head_hidden", number(0));
        put(&mut window, "tail_hidden", number(total_lines - visible_lines));
        put(
            &mut window,
            "visible_start",
            number(
                if visible_lines == 0 {
                    0
                } else {
                    1
                },
            ),
        );
        put(&mut window, "visible_end", number(visible_lines));
        object(window)
    } else {
        null()
    };
    let mut limit = fields();
    put(&mut limit, "configured", number(configured));
    put(&mut limit, "visible_lines", number(visible_lines));
    put(&mut limit, "total_lines", number(total_lines));
    let mut display = fields();
    put(&mut display, "expanded", flag(expanded));
    put(&mut display, "limit", object(limit));
    put(&mut display, "truncation", truncation);
    object(display)
}

/// The name of a todo status, which is also that of its marker.
pub open spec fn status_name(status: TodoStatus) -> Seq<char> {
    match status {
        TodoStatus::Pending => "pending"@,
        TodoStatus::InProgress => "in_progress"@,
        TodoStatus::Completed => "completed"@,
        TodoStatus::Cancelled => "cancelled"@,
    }
}

/// The name of a todo priority.
pub open spec fn priority_name(priority: TodoPriority) -> Seq<char> {
    match priority {
        TodoPriority::High => "high"@,
        TodoPriority::Medium => "medium"@,
        TodoPriority::Low => "low"@,
    }
}

fn status_text(status: TodoStatus) -> (name: &'static str)
    ensures
        name@ == status_name(status),
{
    match status {
        TodoStatus::Pending => "pending",
        TodoStatus::InProgress => "in_progress",
        TodoStatus::Completed => "completed",
        TodoStatus::Cancelled => "cancelled",
    }
}

fn priority_text(priority: TodoPriority) -> (name: &'static str)
    ensures
        name@ == priority_name(priority),
{
    match priority {
        TodoPriority::High => "high",
        TodoPriority::Medium => "medium",
        TodoPriority::Low => "low",
    }
}

/// A todo item: its content and the semantic names of how it stands.
pub open spec fn todo_tree(item: TodoItem) -> Json {
    Json::Obj(
        no_fields().insert("content"@, Json::Str(item.content@)).insert(
            "status"@,
            Json::Str(status_name(item.status)),
        ).insert("priority"@, Json::Str(priority_name(item.priority))).insert(
            "marker"@,
            Json::Str(status_name(item.status)),
        ),
    )
}

/// A todo item with the semantic names of its status, priority and marker.
pub fn todo_item_projection(item: &TodoItem) -> (value: Value)
    ensures
        json_tree(value) == todo_tree(*item),
{
    let mut todo = fields();
    put(&mut todo, "content", text(item.content.as_str()));
    put(&mut todo, "status", text(status_text(item.status)));
    put(&mut todo, "priority", text(priority_text(item.priority)));
    put(&mut todo, "marker", text(status_text(item.status)));
    object(todo)
}

/// The todo items, in order.
pub open spec fn todo_trees(items: Seq<TodoItem>) -> Seq<Json> {
    items.map_values(|item: TodoItem| todo_tree(item))
}

fn todo_items(items: &Vec<TodoItem>) -> (value: Value)
    ensures
        json_tree(value) == Json::Arr(todo_trees(items@)),
{
    let ghost all = todo_trees(items@);
    let mut made: Vec<Value> = Vec::new();
    let mut i: usize = 0;
    while i < items.len()
        invariant
            all == todo_trees(items@),
            i <= items@.len(),
            trees(made@) == all.take(i as int),
        decreases items@.len() - i,
    {
        let ghost before = made@;
        let value = todo_item_projection(&items[i]);
        made.push(value);
        proof {
            trees_push(before, value);
            assert(all.take(i + 1) =~= all.take(i as int).push(all[i as int]));
        }
        i += 1;
    }
    assert(all.take(i as int) =~= all);
    list(made)
}

/// A text body: its source, unchanged, and how much of it is shown.
pub open spec fn text_body_tree(
    kind: Seq<char>,
    source: Seq<char>,
    legacy: bool,
    limit: nat,
    expanded: bool,
) -> Json {
    let total = line_count(source);
    Json::Obj(
        no_fields().insert("kind"@, Json::Str(kind)).insert("text"@, Json::Str(source)).insert(
            "legacy"@,
            if legacy {
                Json::Bool(true)
            } else {
                Json::Null
            },
        ).insert("display"@, display_tree(total, shown(total, limit, expanded), limit, expanded)),
    )
}

/// A todo body: its items, what to show when there are none, and how much of
/// it is shown.
pub open spec fn todo_body_tree(items: Seq<TodoItem>, limit: nat, expanded: bool) -> Json {
    let empty = if items.len() == 0 {
        Json::Obj(
            no_fields().insert("label"@, Json::Str("No todos."@)).insert(
                "group"@,
                Json::Str("todo.empty"@),
            ),
        )
    } else {
        Json::Null
    };
    Json::Obj(
        no_fields().insert("kind"@, Json::Str("todo_list"@)).insert(
            "items"@,
            Json::Arr(todo_trees(items)),
        ).insert("empty"@, empty).insert(
            "display"@,
            display_tree(items.len(), shown(items.len(), limit, expanded), limit, expanded),
        ),
    )
}

/// The body of a tool output: there for text and todo output only.
pub open spec fn body_tree(output: ToolOutput, limit: nat, expanded: bool) -> Option<Json> {
    match output {
        ToolOutput::Plain(source) => Some(
            text_body_tree("plain"@, source.text@, false, limit, expanded),
        ),
        ToolOutput::Markdown(source) => Some(
            text_body_tree("markdown"@, source.text@, false, limit, expanded),
        ),
        ToolOutput::ReadDir(source) => Some(
            text_body_tree("read_dir"@, source.text@, false, limit, expanded),
        ),
        ToolOutput::Batch { text: source } => Some(
            text_body_tree("batch"@, source@, true, limit, expanded),
        ),
        ToolOutput::TodoList(items) => Some(todo_body_tree(items@, limit, expanded)),
        _ => None,
    }
}

fn text_body(kind: &str, source: &str, legacy: bool, limit: usize, expanded: bool) -> (value: Value)
    ensures
        json_tree(value) == text_body_tree(kind@, source@, legacy, limit as nat, expanded),
{
    let total_lines = logical_line_count(source);
    let visible = visible_lines(total_lines, limit, expanded);
    let mut body = fields();
    put(&mut body, "kind", text(kind));
    put(&mut body, "text", text(source));
    put(
        &mut body,
        "legacy",
        if legacy {
            flag(true)
        } else {
            null()
        },
    );
    put(&mut body, "display", body_display(total_lines, visible, limit, expanded));
    object(body)
}

/// The structured body of text and todo output, `None` for any other output.
pub fn tool_body_projection(output: &ToolOutput, limit: usize, expanded: bool) -> (body: Option<
    Value,
>)
    ensures
        body is Some <==> body_tree(*output, limit as nat, expanded) is Some,
        body matches Some(value) ==> body_tree(*output, limit as nat, expanded) == Some(
            json_tree(value),
        ),
{
    match output {
        ToolOutput::Plain(source) => Some(
            text_body("plain", source.text.as_str(), false, limit, expanded),
        ),
        ToolOutput::Markdown(source) => Some(
            text_body("markdown", source.text.as_str(), false, limit, expanded),
        ),
        ToolOutput::ReadDir(source) => Some(
            text_body("read_dir", source.text.as_str(), false, limit, expanded),
        ),
        ToolOutput::Batch { text: source } => Some(
            text_body("batch", source.as_str(), true, limit, expanded),
        ),
        ToolOutput::TodoList(items) => {
            let total_lines = items.len();
            let visible = visible_lines(total_lines, limit, expanded);
            let empty = if items.len() == 0 {
                let mut none = fields();
                put(&mut none, "label", text("No todos."));
                put(&mut none, "group", text("todo.empty"));
                object(none)
            } else {
                null()
            };
            let mut body = fields();
            put(&mut body, "kind", text("todo_list"));
            put(&mut body, "items", todo_items(items));
            put(&mut body, "empty", empty);
            put(&mut body, "display", body_display(total_lines, visible, limit, expanded));
            Some(object(body))
        },
        _ => None,
    }
}

} // verus!
