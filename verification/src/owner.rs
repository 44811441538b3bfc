//! Who composes a block's lines: the renderer, or the host.

use crate::body::{code_line_count, line_count, logical_line_count, visible_lines};
use crate::code::{budget_hides, code_lines_shown, code_shown, input_lines};
use crate::grep::GrepPlan;
use crate::host::{Host, InstructionsPlan};
use crate::message::{
    DisplayMessage, DisplayRole, InstructionBlock, SectionFlags, ToolInput, ToolOutput, ToolStatus,
};
use vstd::prelude::*;

verus! {

/// Who composes a tool or instruction block. The renderer owns the states it
/// can compose exactly; the host keeps the states whose interaction metadata
/// it must supply, such as a clickable truncation window or a streamed body.
#[derive(Clone, Copy, Debug, PartialEq, Eq, Structural)]
pub enum BodyOwner {
    Lua,
    Host,
}

/// Whether a plugin streamed a body that the host holds.
pub open spec fn streamed(message: DisplayMessage) -> bool {
    message.render_snapshot is Some || message.live_output is Some
}

/// How many entries the one section of an output has, for the outputs that
/// are counted.
pub open spec fn output_lines(output: ToolOutput) -> Option<nat> {
    match output {
        ToolOutput::Plain(source) => Some(line_count(source.text@)),
        ToolOutput::Markdown(source) => Some(line_count(source.text@)),
        ToolOutput::ReadDir(source) => Some(line_count(source.text@)),
        ToolOutput::Batch { text } => Some(line_count(text@)),
        ToolOutput::TodoList(items) => Some(items@.len()),
        ToolOutput::ReadCode { lines, .. } => Some(lines@.len()),
        _ => None,
    }
}

/// Whether nothing of a section is hidden.
pub open spec fn fits(total: nat, limit: nat, expanded: bool, cut: bool) -> bool {
    code_shown(total, limit, expanded, cut) == total
}

/// Who owns a settled tool body that the host did not stream.
pub open spec fn output_owner(
    input: Option<ToolInput>,
    output: ToolOutput,
    limit: nat,
    expanded: SectionFlags,
    cuts: SectionFlags,
    plan: GrepPlan,
) -> BodyOwner {
    let lua = match output {
        ToolOutput::Diff { .. } => true,
        ToolOutput::GrepResult { entries } => entries@.len() > 0 && expanded.output
            && !plan.truncated,
        ToolOutput::ReadCode { lines, .. } => match input {
            Some(input) => fits(input_lines(input), limit, expanded.script, cuts.script) && fits(
                lines@.len(),
                limit,
                expanded.output,
                cuts.output,
            ),
            None => false,
        },
        _ => match output_lines(output) {
            Some(total) => fits(total, limit, expanded.output, cuts.output),
            None => false,
        },
    };
    if lua {
        BodyOwner::Lua
    } else {
        BodyOwner::Host
    }
}

/// Who owns a block's lines. `cuts` says of each section whether the host
/// truncates what the budget hides of it, `plan` what the host makes of a
/// grep result.
pub open spec fn owner_of(
    message: DisplayMessage,
    limit: nat,
    expanded: SectionFlags,
    cuts: SectionFlags,
    plan: GrepPlan,
) -> BodyOwner {
    match message.role {
        DisplayRole::Tool(tool) => if tool.status == ToolStatus::InProgress || streamed(message) {
            BodyOwner::Host
        } else {
            match message.tool_output {
                Some(output) => output_owner(
                    match message.tool_input {
                        Some(input) => Some(*input),
                        None => None,
                    },
                    *output,
                    limit,
                    expanded,
                    cuts,
                    plan,
                ),
                None => BodyOwner::Host,
            }
        },
        _ => BodyOwner::Lua,
    }
}

/// One body section fits when the budget hides nothing.
pub fn one_section(total: usize, limit: usize, expanded: bool, cut: bool) -> (owner: BodyOwner)
    ensures
        owner == if fits(total as nat, limit as nat, expanded, cut) {
            BodyOwner::Lua
        } else {
            BodyOwner::Host
        },
{
    if code_lines_shown(total, limit, expanded, cut) == total {
        BodyOwner::Lua
    } else {
        BodyOwner::Host
    }
}

/// How many lines a tool input has.
fn input_line_count(input: &ToolInput) -> (count: usize)
    ensures
        count == input_lines(*input),
{
    match input {
        ToolInput::Code { language: _, code } => code_line_count(code.as_str()),
        ToolInput::Script { language: _, code } => code_line_count(code.as_str()),
    }
}

/// How many entries the one section of an output has.
fn output_line_count(output: &ToolOutput) -> (count: Option<usize>)
    ensures
        count is Some <==> output_lines(*output) is Some,
        count matches Some(count) ==> output_lines(*output) == Some(count as nat),
{
    match output {
        ToolOutput::Plain(source) => Some(logical_line_count(source.text.as_str())),
        ToolOutput::Markdown(source) => Some(logical_line_count(source.text.as_str())),
        ToolOutput::ReadDir(source) => Some(logical_line_count(source.text.as_str())),
        ToolOutput::Batch { text } => Some(logical_line_count(text.as_str())),
        ToolOutput::TodoList(items) => Some(items.len()),
        ToolOutput::ReadCode { lines, .. } => Some(lines.len()),
        _ => None,
    }
}

/// Who owns a block's lines, once the host has answered.
pub fn settled_owner(
    message: &DisplayMessage,
    limit: usize,
    expanded: SectionFlags,
    cuts: SectionFlags,
    plan: GrepPlan,
) -> (owner: BodyOwner)
    ensures
        owner == owner_of(*message, limit as nat, expanded, cuts, plan),
{
    let tool = match &message.role {
        DisplayRole::Tool(tool) => tool,
        _ => return BodyOwner::Lua,
    };
    if tool.status == ToolStatus::InProgress || message.render_snapshot.is_some()
        || message.live_output.is_some() {
        return BodyOwner::Host;
    }
    let output = match &message.tool_output {
        Some(output) => &**output,
        None => return BodyOwner::Host,
    };
    match output {
        ToolOutput::Diff { .. } => BodyOwner::Lua,
        ToolOutput::GrepResult { entries } => {
            if entries.len() == 0 || !expanded.output || plan.truncated {
                BodyOwner::Host
            } else {
                BodyOwner::Lua
            }
        },
        ToolOutput::ReadCode { lines, .. } => match &message.tool_input {
            Some(input) => {
                let script = one_section(
                    input_line_count(&**input),
                    limit,
                    expanded.script,
                    cuts.script,
                );
                if script == BodyOwner::Lua {
                    one_section(lines.len(), limit, expanded.output, cuts.output)
                } else {
                    BodyOwner::Host
                }
            },
            None => BodyOwner::Host,
        },
        _ => match output_line_count(output) {
            Some(total) => one_section(total, limit, expanded.output, cuts.output),
            None => BodyOwner::Host,
        },
    }
}

/// Whether the owner of a block depends on the host: a settled tool block
/// whose body was not streamed.
pub open spec fn undecided(message: DisplayMessage) -> bool {
    &&& message.role matches DisplayRole::Tool(tool)
    &&& tool.status != ToolStatus::InProgress
    &&& !streamed(message)
}

/// The host's answers, as far as the owner of a block depends on them: the
/// truncation of each counted section, and the full layout of an expanded
/// grep result.
pub open spec fn owner_answers<H: Host>(
    host: &H,
    message: &DisplayMessage,
    limit: usize,
    expanded: SectionFlags,
    cuts: SectionFlags,
    plan: GrepPlan,
) -> bool {
    undecided(*message) ==> {
        &&& message.tool_input matches Some(input) ==> call_ensures(
            H::should_truncate,
            (host, budget_hides(input_lines(*input), limit as nat, expanded.script) as usize),
            cuts.script,
        )
        &&& message.tool_output matches Some(output) ==> {
            &&& output_lines(*output) matches Some(total) ==> call_ensures(
                H::should_truncate,
                (host, budget_hides(total, limit as nat, expanded.output) as usize),
                cuts.output,
            )
            &&& *output is GrepResult && expanded.output ==> call_ensures(
                H::plan_grep_layout,
                (host, &(*output)->entries, usize::MAX),
                plan,
            )
        }
    }
}

/// A plan for no rows at all, with nothing left out.
fn no_plan() -> (plan: GrepPlan)
    ensures
        plan == (GrepPlan { rows: 0, total_rows: 0, truncated: false, hidden_matches: 0 }),
{
    GrepPlan { rows: 0, total_rows: 0, truncated: false, hidden_matches: 0 }
}

/// The single authority for who owns a tool block's lines. The host is asked
/// whether the sections are truncated and how a grep result is laid out.
pub fn tool_body_owner<H: Host>(
    message: &DisplayMessage,
    limit: usize,
    expanded: SectionFlags,
    host: &H,
) -> (owner: BodyOwner)
    ensures
        exists|cuts: SectionFlags, plan: GrepPlan| #[trigger]
            owner_answers(host, message, limit, expanded, cuts, plan) && owner == owner_of(
                *message,
                limit as nat,
                expanded,
                cuts,
                plan,
            ),
{
    let decided = match &message.role {
        DisplayRole::Tool(tool) => tool.status == ToolStatus::InProgress,
        _ => true,
    };
    if decided || message.render_snapshot.is_some() || message.live_output.is_some() {
        let cuts = SectionFlags { script: false, output: false };
        let plan = no_plan();
        assert(owner_answers(host, message, limit, expanded, cuts, plan));
        return settled_owner(message, limit, expanded, cuts, plan);
    }
    let script = match &message.tool_input {
        Some(input) => {
            let total = input_line_count(&**input);
            host.should_truncate(total - visible_lines(total, limit, expanded.script))
        },
        None => false,
    };
    let mut output = false;
    let mut plan = no_plan();
    if let Some(returned) = &message.tool_output {
        if let Some(total) = output_line_count(&**returned) {
            output = host.should_truncate(total - visible_lines(total, limit, expanded.output));
        }
        if let ToolOutput::GrepResult { entries } = &**returned {
            if expanded.output {
                plan = host.plan_grep_layout(entries, usize::MAX);
            }
        }
    }
    let cuts = SectionFlags { script, output };
    assert(owner_answers(host, message, limit, expanded, cuts, plan));
    settled_owner(message, limit, expanded, cuts, plan)
}

/// Who owns an instruction segment's lines: the renderer only an expanded
/// one that has blocks and is not truncated.
pub open spec fn instructions_owner(blocks: nat, expanded: bool, plan: InstructionsPlan) -> BodyOwner {
    if expanded && blocks > 0 && !plan.truncated {
        BodyOwner::Lua
    } else {
        BodyOwner::Host
    }
}

/// Who owns an instruction segment's lines, once the host has laid it out.
pub fn settled_instructions_owner(
    blocks: &Vec<InstructionBlock>,
    expanded: bool,
    plan: InstructionsPlan,
) -> (owner: BodyOwner)
    ensures
        owner == instructions_owner(blocks@.len(), expanded, plan),
{
    if !expanded || blocks.len() == 0 || plan.truncated {
        BodyOwner::Host
    } else {
        BodyOwner::Lua
    }
}

/// Who composes an instruction segment's lines. The host keeps every collapsed
/// or truncated state, because the expansion click lives in its metadata. It
/// is asked for its budget and the layout under it only where they matter.
pub fn instructions_body_owner<H: Host>(
    blocks: &Vec<InstructionBlock>,
    expanded: bool,
    host: &H,
) -> (owner: BodyOwner)
    ensures
        !expanded || blocks@.len() == 0 ==> owner == BodyOwner::Host,
        expanded && blocks@.len() > 0 ==> exists|limit: usize, plan: InstructionsPlan|
            call_ensures(H::instruction_limit, (host, true), limit) && #[trigger]
            call_ensures(H::plan_instructions_layout, (host, blocks, limit), plan) && owner
                == instructions_owner(blocks@.len(), expanded, plan),
{
    if !expanded || blocks.len() == 0 {
        return BodyOwner::Host;
    }
    let limit = host.instruction_limit(true);
    let plan = host.plan_instructions_layout(blocks, limit);
    settled_instructions_owner(blocks, expanded, plan)
}

} // verus!
