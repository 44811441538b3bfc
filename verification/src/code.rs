//! Code sections: the script a tool ran and the file it read.

use crate::body::{
    body_display, code_line_count, display_tree, line_count, shown, trimmed, visible_lines,
};
use crate::host::Host;
use crate::json::{
    fields, json_tree, list, no_fields, null, number, object, put, text, text_list, text_trees,
    trees, trees_push, Json,
};
use crate::message::{DisplayMessage, InstructionBlock, SectionFlags, ToolInput, ToolOutput};
use serde_json::Value;
use vstd::prelude::*;

verus! {

/// How many of `total` lines are shown. Where the host would not truncate
/// what the budget hides, everything is.
pub open spec fn code_shown(total: nat, limit: nat, expanded: bool, cut: bool) -> nat {
    if cut {
        shown(total, limit, expanded)
    } else {
        total
    }
}

/// How many of `total` lines the budget hides.
pub open spec fn budget_hides(total: nat, limit: nat, expanded: bool) -> nat {
    (total - shown(total, limit, expanded)) as nat
}

/// How many of `total_lines` are shown when the host truncates what the
/// budget hides, or does not.
pub fn code_lines_shown(total_lines: usize, limit: usize, expanded: bool, cut: bool) -> (visible:
    usize)
    ensures
        visible == code_shown(total_lines as nat, limit as nat, expanded, cut),
{
    if cut {
        visible_lines(total_lines, limit, expanded)
    } else {
        total_lines
    }
}

/// How many of `total_lines` are shown. The host is asked whether what the
/// budget hides is worth truncating; where it is not, everything is shown.
pub fn visible_code_lines<H: Host>(
    total_lines: usize,
    limit: usize,
    expanded: bool,
    host: &H,
) -> (visible: usize)
    ensures
        exists|cut: bool| #[trigger]
            call_ensures(
                H::should_truncate,
                (host, budget_hides(total_lines as nat, limit as nat, expanded) as usize),
                cut,
            ) && visible == code_shown(total_lines as nat, limit as nat, expanded, cut),
{
    let cut = host.should_truncate(total_lines - visible_lines(total_lines, limit, expanded));
    code_lines_shown(total_lines, limit, expanded, cut)
}

/// The code of a tool input, whichever form it has.
pub open spec fn input_code(input: ToolInput) -> (Seq<char>, Seq<char>) {
    match input {
        ToolInput::Code { language, code } => (language@, code@),
        ToolInput::Script { language, code } => (language@, code@),
    }
}

/// How many lines a tool input has.
pub open spec fn input_lines(input: ToolInput) -> nat {
    line_count(trimmed(input_code(input).1))
}

/// A tool input, the same for both its forms.
pub open spec fn input_tree(input: ToolInput, limit: nat, expanded: bool, cut: bool) -> Json {
    let (language, code) = input_code(input);
    let total = input_lines(input);
    Json::Obj(
        no_fields().insert("language"@, Json::Str(language)).insert(
            "code"@,
            Json::Str(code),
        ).insert(
            "display"@,
            display_tree(total, code_shown(total, limit, expanded, cut), limit, expanded),
        ),
    )
}

/// An instruction file.
pub open spec fn instruction_tree(block: InstructionBlock) -> Json {
    Json::Obj(
        no_fields().insert("path"@, Json::Str(block.path@)).insert(
            "content"@,
            Json::Str(block.content@),
        ),
    )
}

/// The instruction files, in order.
pub open spec fn instruction_trees(blocks: Seq<InstructionBlock>) -> Seq<Json> {
    blocks.map_values(|block: InstructionBlock| instruction_tree(block))
}

/// The instruction files, in order.
pub fn instruction_list(blocks: &Vec<InstructionBlock>) -> (value: Value)
    ensures
        json_tree(value) == Json::Arr(instruction_trees(blocks@)),
{
    let ghost all = instruction_trees(blocks@);
    let mut made: Vec<Value> = Vec::new();
    let mut i: usize = 0;
    assert(trees(made@) =~= all.take(0));
    while i < blocks.len()
        invariant
            all == instruction_trees(blocks@),
            i <= blocks@.len(),
            trees(made@) == all.take(i as int),
        decreases blocks@.len() - i,
    {
        let ghost before = made@;
        let mut block = fields();
        put(&mut block, "path", text(blocks[i].path.as_str()));
        put(&mut block, "content", text(blocks[i].content.as_str()));
        let value = object(block);
        made.push(value);
        proof {
            trees_push(before, value);
            assert(all.take(i + 1) =~= all.take(i as int).push(all[i as int]));
        }
        i += 1;
    }
    assert(all.take(i as int) =~= all);
    list(made)
}

/// A static read, `None` for any other output.
pub open spec fn read_tree(output: ToolOutput, limit: nat, expanded: bool, cut: bool) -> Option<
    Json,
> {
    match output {
        ToolOutput::ReadCode { path, start_line, lines, total_lines, instructions } => Some(
            Json::Obj(
                no_fields().insert("kind"@, Json::Str("read_code"@)).insert(
                    "path"@,
                    Json::Str(path@),
                ).insert("start_line"@, Json::Num(start_line as nat)).insert(
                    "lines"@,
                    Json::Arr(text_trees(lines@)),
                ).insert("total_lines"@, Json::Num(total_lines as nat)).insert(
                    "instructions"@,
                    match instructions {
                        Some(blocks) => Json::Arr(instruction_trees(blocks@)),
                        None => Json::Null,
                    },
                ).insert(
                    "display"@,
                    display_tree(
                        lines@.len(),
                        code_shown(lines@.len(), limit, expanded, cut),
                        limit,
                        expanded,
                    ),
                ),
            ),
        ),
        _ => None,
    }
}

/// A tree that may be missing.
pub open spec fn or_null(tree: Option<Json>) -> Json {
    match tree {
        Some(tree) => tree,
        None => Json::Null,
    }
}

/// The code sections of a message: its input and, where the tool returned
/// anything, a static read. Any other output, and a message without either
/// section, has none.
pub open spec fn code_tree(
    message: DisplayMessage,
    limit: nat,
    expanded: SectionFlags,
    cuts: SectionFlags,
) -> Option<Json> {
    let input = match message.tool_input {
        Some(input) => Some(input_tree(*input, limit, expanded.script, cuts.script)),
        None => None,
    };
    let output = match message.tool_output {
        Some(output) => read_tree(*output, limit, expanded.output, cuts.output),
        None => None,
    };
    if (input is None && output is None) || (message.tool_output is Some && output is None) {
        None
    } else {
        Some(
            Json::Obj(
                no_fields().insert("input"@, or_null(input)).insert("output"@, or_null(output)),
            ),
        )
    }
}

fn input_json(input: &ToolInput, limit: usize, expanded: bool, cut: bool) -> (value: Value)
    ensures
        json_tree(value) == input_tree(*input, limit as nat, expanded, cut),
{
    let (language, code) = match input {
        ToolInput::Code { language, code } => (language, code),
        ToolInput::Script { language, code } => (language, code),
    };
    let total_lines = code_line_count(code.as_str());
    let visible = code_lines_shown(total_lines, limit, expanded, cut);
    let mut made = fields();
    put(&mut made, "language", text(language.as_str()));
    put(&mut made, "code", text(code.as_str()));
    put(&mut made, "display", body_display(total_lines, visible, limit, expanded));
    object(made)
}

fn read_json(output: &ToolOutput, limit: usize, expanded: bool, cut: bool) -> (read: Option<Value>)
    ensures
        read is Some <==> read_tree(*output, limit as nat, expanded, cut) is Some,
        read matches Some(value) ==> read_tree(*output, limit as nat, expanded, cut) == Some(
            json_tree(value),
        ),
{
    match output {
        ToolOutput::ReadCode { path, start_line, lines, total_lines, instructions } => {
            let visible = code_lines_shown(lines.len(), limit, expanded, cut);
            let loaded = match instructions {
                Some(blocks) => instruction_list(blocks),
                None => null(),
            };
            let mut made = fields();
            put(&mut made, "kind", text("read_code"));
            put(&mut made, "path", text(path.as_str()));
            put(&mut made, "start_line", number(*start_line));
            put(&mut made, "lines", text_list(lines));
            put(&mut made, "total_lines", number(*total_lines));
            put(&mut made, "instructions", loaded);
            put(&mut made, "display", body_display(lines.len(), visible, limit, expanded));
            Some(object(made))
        },
        _ => None,
    }
}

fn value_or_null(value: Option<Value>) -> (made: Value)
    ensures
        json_tree(made) == match value {
            Some(value) => json_tree(value),
            None => Json::Null,
        },
{
    match value {
        Some(value) => value,
        None => null(),
    }
}

/// The code sections of a message. A static read is the only output they
/// cover; anything else keeps the native body. `cuts` says of each section
/// whether the host truncates what the budget hides of it.
pub fn code_projection(
    message: &DisplayMessage,
    limit: usize,
    expanded: SectionFlags,
    cuts: SectionFlags,
) -> (code: Option<Value>)
    ensures
        code is Some <==> code_tree(*message, limit as nat, expanded, cuts) is Some,
        code matches Some(value) ==> code_tree(*message, limit as nat, expanded, cuts) == Some(
            json_tree(value),
        ),
{
    let input = match &message.tool_input {
        Some(input) => Some(input_json(&**input, limit, expanded.script, cuts.script)),
        None => None,
    };
    let output = match &message.tool_output {
        Some(output) => read_json(&**output, limit, expanded.output, cuts.output),
        None => None,
    };
    if input.is_none() && output.is_none() {
        return None;
    }
    if message.tool_output.is_some() && output.is_none() {
        return None;
    }
    let mut code = fields();
    put(&mut code, "input", value_or_null(input));
    put(&mut code, "output", value_or_null(output));
    Some(object(code))
}

} // verus!
