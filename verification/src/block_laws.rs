//! What a renderer is told of a message, field by field.

use crate::body::{display_tree, text_body_tree, todo_body_tree};
use crate::json::{field, has_field, Json};
use crate::message::{
    DisplayMessage, DisplayRole, ImageSource, SectionFlags, TodoItem, TodoPriority, TodoStatus,
    ToolOutput, ToolStatus,
};
use crate::owner_laws::{lines_are_counted, lines_in, over_budget};
use crate::project::{block_tree, first_line, image_tree, image_trees, line_end, tool_tree, Answers};
use vstd::prelude::*;
use vstd::utf8::encode_utf8;

verus! {

/// An object has a text field exactly when there is a text, and it is that.
pub open spec fn says(tree: Json, key: Seq<char>, text: Option<String>) -> bool {
    &&& has_field(tree, key) <==> text is Some
    &&& text matches Some(text) ==> field(tree, key) == Json::Str(text@)
}

/// The descriptor of an image: its type, and how many bytes its payload has.
pub open spec fn describes(tree: Json, image: ImageSource) -> bool {
    &&& field(tree, "media_type"@) == Json::Str(image.media_type@)
    &&& field(tree, "bytes"@) == Json::Num(encode_utf8((*image.data)@).len())
    &&& forall|key: Seq<char>| #[trigger]
        has_field(tree, key) ==> key == "media_type"@ || key == "bytes"@
}

/// A block says who its message is from, what it says, and how far along it
/// is; it describes every image, in order, and names each piece of metadata
/// the message has, and no other. It has a `tool` object when it is a tool's.
pub proof fn a_block_says_what_its_message_is(
    message: DisplayMessage,
    limit: nat,
    expanded: SectionFlags,
    answers: Answers,
)
    ensures
        ({
            let block = block_tree(message, limit, expanded, answers);
            let role = message.role;
            &&& field(block, "text"@) == Json::Str(message.text@)
            &&& role is User ==> field(block, "kind"@) == Json::Str("user"@)
            &&& role is Assistant ==> field(block, "kind"@) == Json::Str("assistant"@)
            &&& role is Thinking ==> field(block, "kind"@) == Json::Str("thinking"@)
            &&& role is Tool ==> field(block, "kind"@) == Json::Str("tool"@)
            &&& role is Error ==> field(block, "kind"@) == Json::Str("error"@)
            &&& role is Done ==> field(block, "kind"@) == Json::Str("done"@)
            &&& !(role is Tool) ==> field(block, "phase"@) == Json::Str("complete"@)
            &&& role matches DisplayRole::Tool(tool) ==> field(block, "phase"@) == Json::Str(
                match tool.status {
                    ToolStatus::InProgress => "in_progress"@,
                    ToolStatus::Success => "success"@,
                    ToolStatus::Error => "error"@,
                },
            )
            &&& field(block, "thinking_collapsed"@) == Json::Bool(message.thinking_collapsed)
            &&& says(block, "annotation"@, message.annotation)
            &&& says(block, "timestamp"@, message.timestamp)
            &&& says(block, "turn_usage"@, message.turn_usage)
            &&& says(block, "plan_path"@, message.plan_path)
            &&& has_field(block, "tool"@) <==> role is Tool
            &&& field(block, "images"@) matches Json::Arr(images) && images.len()
                == message.images@.len() && forall|i: int|
                0 <= i < images.len() ==> describes(#[trigger] images[i], message.images@[i])
        }),
        forall|key: Seq<char>| #[trigger]
            has_field(block_tree(message, limit, expanded, answers), key) ==> key == "kind"@ || key
                == "text"@ || key == "phase"@ || key == "images"@ || key == "thinking_collapsed"@
                || key == "annotation"@ || key == "timestamp"@ || key == "turn_usage"@ || key
                == "plan_path"@ || key == "tool"@,
{
    reveal_strlit("kind");
    assert("kind"@.len() == 4);
    reveal_strlit("text");
    assert("text"@.len() == 4);
    reveal_strlit("phase");
    assert("phase"@.len() == 5);
    reveal_strlit("images");
    assert("images"@.len() == 6);
    reveal_strlit("thinking_collapsed");
    assert("thinking_collapsed"@.len() == 18);
    reveal_strlit("annotation");
    assert("annotation"@.len() == 10);
    reveal_strlit("timestamp");
    assert("timestamp"@.len() == 9);
    reveal_strlit("turn_usage");
    assert("turn_usage"@.len() == 10);
    reveal_strlit("plan_path");
    assert("plan_path"@.len() == 9);
    reveal_strlit("tool");
    assert("tool"@.len() == 4);
    assert("kind"@[0] != "text"@[0]);
    assert("kind"@[0] != "tool"@[0]);
    assert("text"@[1] != "tool"@[1]);
    assert("annotation"@[0] != "turn_usage"@[0]);
    assert("timestamp"@[0] != "plan_path"@[0]);
    images_are_described(message.images@);
}

proof fn images_are_described(images: Seq<ImageSource>)
    ensures
        image_trees(images).len() == images.len(),
        forall|i: int|
            0 <= i < images.len() ==> describes(#[trigger] image_trees(images)[i], images[i]),
{
    reveal_strlit("media_type");
    assert("media_type"@.len() == 10);
    reveal_strlit("bytes");
    assert("bytes"@.len() == 5);
    assert forall|i: int| 0 <= i < images.len() implies describes(
        #[trigger] image_trees(images)[i],
        images[i],
    ) by {
        assert(image_trees(images)[i] == image_tree(
            images[i].media_type@,
            encode_utf8((*images[i].data)@).len(),
        ));
    }
}

/// The line a text begins with: everything before its first line feed.
pub open spec fn begins_with(text: Seq<char>, line: Seq<char>) -> bool {
    &&& line.len() <= text.len()
    &&& line == text.take(line.len() as int)
    &&& forall|k: int| 0 <= k < line.len() ==> #[trigger] line[k] != '\n'
    &&& line.len() < text.len() ==> text[line.len() as int] == '\n'
}

/// A tool block names its tool, how it stands and who holds a streamed body,
/// and has the sections its message has: code unless the output is of another
/// kind, and the one that belongs to the kind of its output.
pub proof fn a_tool_block_says_what_its_tool_is(
    message: DisplayMessage,
    limit: nat,
    expanded: SectionFlags,
    answers: Answers,
)
    requires
        message.role is Tool,
    ensures
        ({
            let tool = field(block_tree(message, limit, expanded, answers), "tool"@);
            let role = message.role->Tool_0;
            let header = field(tool, "header"@);
            &&& field(tool, "name"@) == Json::Str((*role.name)@)
            &&& field(tool, "status"@) == Json::Str(
                match role.status {
                    ToolStatus::InProgress => "in_progress"@,
                    ToolStatus::Success => "success"@,
                    ToolStatus::Error => "error"@,
                },
            )
            &&& says(tool, "usage"@, message.turn_usage)
            &&& says(tool, "timestamp"@, message.timestamp)
            &&& message.render_snapshot is Some ==> field(tool, "body_authority"@) == Json::Str(
                "snapshot"@,
            )
            &&& message.render_snapshot is None && message.live_output is Some ==> field(
                tool,
                "body_authority"@,
            ) == Json::Str("live"@)
            &&& message.render_snapshot is None && message.live_output is None ==> field(
                tool,
                "body_authority"@,
            ) == Json::Str("none"@)
            &&& has_field(tool, "code"@) <==> match message.tool_output {
                Some(output) => *output is ReadCode,
                None => message.tool_input is Some,
            }
            &&& has_field(tool, "body"@) <==> match message.tool_output {
                Some(output) => *output is Plain || *output is Markdown || *output is ReadDir
                    || *output is Batch || *output is TodoList,
                None => false,
            }
            &&& has_field(tool, "diff"@) <==> match message.tool_output {
                Some(output) => *output is Diff,
                None => false,
            }
            &&& has_field(tool, "grep"@) <==> match message.tool_output {
                Some(output) => *output is GrepResult,
                None => false,
            }
            &&& message.render_header is None ==> {
                &&& field(header, "kind"@) == Json::Str("text"@)
                &&& field(header, "text"@) matches Json::Str(line) && begins_with(
                    message.text@,
                    line,
                )
                &&& says(header, "annotation"@, message.annotation)
                &&& !has_field(header, "lines"@)
            }
            &&& message.render_header is Some ==> {
                &&& field(header, "kind"@) == Json::Str("snapshot"@)
                &&& !has_field(header, "text"@)
                &&& !has_field(header, "annotation"@)
            }
        }),
        forall|key: Seq<char>| #[trigger]
            has_field(field(block_tree(message, limit, expanded, answers), "tool"@), key) ==> key
                == "name"@ || key == "status"@ || key == "usage"@ || key == "timestamp"@ || key
                == "header"@ || key == "body_authority"@ || key == "code"@ || key == "body"@ || key
                == "diff"@ || key == "grep"@,
{
    reveal_strlit("name");
    assert("name"@.len() == 4);
    reveal_strlit("status");
    assert("status"@.len() == 6);
    reveal_strlit("usage");
    assert("usage"@.len() == 5);
    reveal_strlit("timestamp");
    assert("timestamp"@.len() == 9);
    reveal_strlit("header");
    assert("header"@.len() == 6);
    reveal_strlit("body_authority");
    assert("body_authority"@.len() == 14);
    reveal_strlit("code");
    assert("code"@.len() == 4);
    reveal_strlit("body");
    assert("body"@.len() == 4);
    reveal_strlit("diff");
    assert("diff"@.len() == 4);
    reveal_strlit("grep");
    assert("grep"@.len() == 4);
    reveal_strlit("kind");
    assert("kind"@.len() == 4);
    reveal_strlit("text");
    assert("text"@.len() == 4);
    reveal_strlit("annotation");
    assert("annotation"@.len() == 10);
    reveal_strlit("lines");
    assert("lines"@.len() == 5);
    reveal_strlit("tool");
    assert("tool"@.len() == 4);
    assert("name"@[0] != "code"@[0]);
    assert("name"@[0] != "body"@[0]);
    assert("name"@[0] != "diff"@[0]);
    assert("name"@[0] != "grep"@[0]);
    assert("name"@[0] != "kind"@[0]);
    assert("name"@[0] != "text"@[0]);
    assert("name"@[0] != "tool"@[0]);
    assert("status"@[0] != "header"@[0]);
    assert("usage"@[0] != "lines"@[0]);
    assert("code"@[0] != "body"@[0]);
    assert("code"@[0] != "diff"@[0]);
    assert("code"@[0] != "grep"@[0]);
    assert("code"@[0] != "kind"@[0]);
    assert("code"@[0] != "text"@[0]);
    assert("code"@[0] != "tool"@[0]);
    assert("body"@[0] != "diff"@[0]);
    assert("body"@[0] != "grep"@[0]);
    assert("body"@[0] != "kind"@[0]);
    assert("body"@[0] != "text"@[0]);
    assert("body"@[0] != "tool"@[0]);
    assert("diff"@[0] != "grep"@[0]);
    assert("diff"@[0] != "kind"@[0]);
    assert("diff"@[0] != "text"@[0]);
    assert("diff"@[0] != "tool"@[0]);
    assert("grep"@[0] != "kind"@[0]);
    assert("grep"@[0] != "text"@[0]);
    assert("grep"@[0] != "tool"@[0]);
    assert("kind"@[0] != "text"@[0]);
    assert("kind"@[0] != "tool"@[0]);
    assert("text"@[1] != "tool"@[1]);
    the_first_line_begins(message.text@, 0);
    let line = first_line(message.text@);
    assert(begins_with(message.text@, line));
    tool_is_in_the_block(message, limit, expanded, answers);
}

pub(crate) proof fn tool_is_in_the_block(
    message: DisplayMessage,
    limit: nat,
    expanded: SectionFlags,
    answers: Answers,
)
    requires
        message.role is Tool,
    ensures
        field(block_tree(message, limit, expanded, answers), "tool"@) == tool_tree(
            message,
            (*message.role->Tool_0.name)@,
            limit,
            expanded,
            answers,
        ),
{
}

proof fn the_first_line_begins(text: Seq<char>, i: int)
    requires
        0 <= i <= text.len(),
    ensures
        i <= line_end(text, i) <= text.len(),
        forall|k: int| i <= k < line_end(text, i) ==> text[k] != '\n',
        line_end(text, i) < text.len() ==> text[line_end(text, i)] == '\n',
    decreases text.len() - i,
{
    if i < text.len() && text[i] != '\n' {
        the_first_line_begins(text, i + 1);
    }
}

/// What is told of how much of a section is shown: of its `total` entries the
/// last `hidden` are not, and what is shown is given by its first and last
/// entry, counted from one.
pub open spec fn display_says(
    display: Json,
    total: nat,
    hidden: nat,
    limit: nat,
    expanded: bool,
) -> bool {
    let counts = field(display, "limit"@);
    let cut = field(display, "truncation"@);
    &&& field(display, "expanded"@) == Json::Bool(expanded)
    &&& field(counts, "configured"@) == Json::Num(limit)
    &&& field(counts, "visible_lines"@) == Json::Num((total - hidden) as nat)
    &&& field(counts, "total_lines"@) == Json::Num(total)
    &&& hidden == 0 ==> cut == Json::Null
    &&& hidden > 0 ==> {
        &&& field(cut, "head_hidden"@) == Json::Num(0)
        &&& field(cut, "tail_hidden"@) == Json::Num(hidden)
        &&& field(cut, "visible_start"@) == Json::Num(1)
        &&& field(cut, "visible_end"@) == Json::Num((total - hidden) as nat)
    }
}

pub(crate) proof fn a_display_says(total: nat, hidden: nat, limit: nat, expanded: bool)
    requires
        hidden < total || hidden == 0,
    ensures
        display_says(
            display_tree(total, (total - hidden) as nat, limit, expanded),
            total,
            hidden,
            limit,
            expanded,
        ),
{
    reveal_strlit("head_hidden");
    assert("head_hidden"@.len() == 11);
    reveal_strlit("tail_hidden");
    assert("tail_hidden"@.len() == 11);
    reveal_strlit("visible_start");
    assert("visible_start"@.len() == 13);
    reveal_strlit("visible_end");
    assert("visible_end"@.len() == 11);
    reveal_strlit("configured");
    assert("configured"@.len() == 10);
    reveal_strlit("visible_lines");
    assert("visible_lines"@.len() == 13);
    reveal_strlit("total_lines");
    assert("total_lines"@.len() == 11);
    reveal_strlit("expanded");
    assert("expanded"@.len() == 8);
    reveal_strlit("limit");
    assert("limit"@.len() == 5);
    reveal_strlit("truncation");
    assert("truncation"@.len() == 10);
    assert("head_hidden"@[0] != "tail_hidden"@[0]);
    assert("head_hidden"@[0] != "visible_end"@[0]);
    assert("head_hidden"@[0] != "total_lines"@[0]);
    assert("tail_hidden"@[0] != "visible_end"@[0]);
    assert("tail_hidden"@[1] != "total_lines"@[1]);
    assert("visible_start"@[8] != "visible_lines"@[8]);
    assert("visible_end"@[0] != "total_lines"@[0]);
    assert("configured"@[0] != "truncation"@[0]);
}

/// A text body carries the whole text whatever is shown of it, under the name
/// of its kind.
pub open spec fn text_says(
    body: Json,
    kind: Seq<char>,
    text: Seq<char>,
    limit: nat,
    expanded: bool,
) -> bool {
    &&& field(body, "kind"@) == Json::Str(kind)
    &&& field(body, "text"@) == Json::Str(text)
    &&& display_says(
        field(body, "display"@),
        lines_in(text),
        over_budget(lines_in(text), limit, expanded),
        limit,
        expanded,
    )
}

/// A todo item says what is to be done, how it stands, in its status and its
/// marker, and how urgent it is.
pub open spec fn todo_says(tree: Json, item: TodoItem) -> bool {
    let status = Json::Str(
        match item.status {
            TodoStatus::Pending => "pending"@,
            TodoStatus::InProgress => "in_progress"@,
            TodoStatus::Completed => "completed"@,
            TodoStatus::Cancelled => "cancelled"@,
        },
    );
    &&& field(tree, "content"@) == Json::Str(item.content@)
    &&& field(tree, "status"@) == status
    &&& field(tree, "marker"@) == status
    &&& field(tree, "priority"@) == Json::Str(
        match item.priority {
            TodoPriority::High => "high"@,
            TodoPriority::Medium => "medium"@,
            TodoPriority::Low => "low"@,
        },
    )
}

proof fn a_text_body_says(
    kind: Seq<char>,
    text: Seq<char>,
    legacy: bool,
    limit: nat,
    expanded: bool,
)
    ensures
        text_says(text_body_tree(kind, text, legacy, limit, expanded), kind, text, limit, expanded),
        field(text_body_tree(kind, text, legacy, limit, expanded), "legacy"@) == if legacy {
            Json::Bool(true)
        } else {
            Json::Null
        },
{
    reveal_strlit("kind");
    assert("kind"@.len() == 4);
    reveal_strlit("text");
    assert("text"@.len() == 4);
    reveal_strlit("legacy");
    assert("legacy"@.len() == 6);
    reveal_strlit("display");
    assert("display"@.len() == 7);
    assert("kind"@[0] != "text"@[0]);
    lines_are_counted(text);
    a_display_says(lines_in(text), over_budget(lines_in(text), limit, expanded), limit, expanded);
}

/// The body of a tool block with text is that text under its kind's name, and
/// only a batch, which is of the old form, says so. That of a todo list is all
/// its items, in order, and what to show when there are none. The row budget
/// hides only what is behind it.
pub proof fn a_body_says_what_the_tool_returned(
    message: DisplayMessage,
    limit: nat,
    expanded: SectionFlags,
    answers: Answers,
)
    requires
        message.role is Tool,
    ensures
        message.tool_output matches Some(output) ==> {
            let body = field(
                field(block_tree(message, limit, expanded, answers), "tool"@),
                "body"@,
            );
            match *output {
                ToolOutput::Plain(source) => text_says(
                    body,
                    "plain"@,
                    source.text@,
                    limit,
                    expanded.output,
                ) && field(body, "legacy"@) == Json::Null,
                ToolOutput::Markdown(source) => text_says(
                    body,
                    "markdown"@,
                    source.text@,
                    limit,
                    expanded.output,
                ) && field(body, "legacy"@) == Json::Null,
                ToolOutput::ReadDir(source) => text_says(
                    body,
                    "read_dir"@,
                    source.text@,
                    limit,
                    expanded.output,
                ) && field(body, "legacy"@) == Json::Null,
                ToolOutput::Batch { text } => text_says(
                    body,
                    "batch"@,
                    text@,
                    limit,
                    expanded.output,
                ) && field(body, "legacy"@) == Json::Bool(true),
                ToolOutput::TodoList(items) => {
                    let total = items@.len();
                    let empty = field(body, "empty"@);
                    &&& field(body, "kind"@) == Json::Str("todo_list"@)
                    &&& field(body, "items"@) matches Json::Arr(trees) && trees.len() == total
                        && forall|i: int|
                        0 <= i < total ==> todo_says(#[trigger] trees[i], items@[i])
                    &&& total > 0 ==> empty == Json::Null
                    &&& total == 0 ==> field(empty, "label"@) == Json::Str("No todos."@) && field(
                        empty,
                        "group"@,
                    ) == Json::Str("todo.empty"@)
                    &&& display_says(
                        field(body, "display"@),
                        total,
                        over_budget(total, limit, expanded.output),
                        limit,
                        expanded.output,
                    )
                },
                _ => true,
            }
        },
{
    reveal_strlit("body");
    assert("body"@.len() == 4);
    reveal_strlit("diff");
    assert("diff"@.len() == 4);
    reveal_strlit("grep");
    assert("grep"@.len() == 4);
    assert("body"@[0] != "diff"@[0]);
    assert("body"@[0] != "grep"@[0]);
    assert("diff"@[0] != "grep"@[0]);
    tool_is_in_the_block(message, limit, expanded, answers);
    if message.tool_output is Some {
        let output = *message.tool_output->Some_0;
        match output {
            ToolOutput::Plain(source) => {
                a_text_body_says("plain"@, source.text@, false, limit, expanded.output);
            },
            ToolOutput::Markdown(source) => {
                a_text_body_says("markdown"@, source.text@, false, limit, expanded.output);
            },
            ToolOutput::ReadDir(source) => {
                a_text_body_says("read_dir"@, source.text@, false, limit, expanded.output);
            },
            ToolOutput::Batch { text } => {
                a_text_body_says("batch"@, text@, true, limit, expanded.output);
            },
            ToolOutput::TodoList(items) => {
                a_todo_body_says(items@, limit, expanded.output);
            },
            _ => {},
        }
    }
}

proof fn a_todo_body_says(items: Seq<TodoItem>, limit: nat, expanded: bool)
    ensures
        ({
            let body = todo_body_tree(items, limit, expanded);
            let total = items.len();
            let empty = field(body, "empty"@);
            &&& field(body, "kind"@) == Json::Str("todo_list"@)
            &&& field(body, "items"@) matches Json::Arr(trees) && trees.len() == total && forall|
                i: int,
            |
                0 <= i < total ==> todo_says(#[trigger] trees[i], items[i])
            &&& total > 0 ==> empty == Json::Null
            &&& total == 0 ==> field(empty, "label"@) == Json::Str("No todos."@) && field(
                empty,
                "group"@,
            ) == Json::Str("todo.empty"@)
            &&& display_says(
                field(body, "display"@),
                total,
                over_budget(total, limit, expanded),
                limit,
                expanded,
            )
        }),
{
    reveal_strlit("kind");
    assert("kind"@.len() == 4);
    reveal_strlit("items");
    assert("items"@.len() == 5);
    reveal_strlit("empty");
    assert("empty"@.len() == 5);
    reveal_strlit("display");
    assert("display"@.len() == 7);
    reveal_strlit("label");
    assert("label"@.len() == 5);
    reveal_strlit("group");
    assert("group"@.len() == 5);
    reveal_strlit("content");
    assert("content"@.len() == 7);
    reveal_strlit("status");
    assert("status"@.len() == 6);
    reveal_strlit("priority");
    assert("priority"@.len() == 8);
    reveal_strlit("marker");
    assert("marker"@.len() == 6);
    assert("items"@[0] != "empty"@[0]);
    assert("items"@[0] != "label"@[0]);
    assert("items"@[0] != "group"@[0]);
    assert("empty"@[0] != "label"@[0]);
    assert("empty"@[0] != "group"@[0]);
    assert("display"@[0] != "content"@[0]);
    assert("label"@[0] != "group"@[0]);
    assert("status"@[0] != "marker"@[0]);
    a_display_says(items.len(), over_budget(items.len(), limit, expanded), limit, expanded);
}

} // verus!
