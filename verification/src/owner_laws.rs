//! Who composes a block's lines, in terms of what the message holds and how
//! much of it is shown.

use crate::body::{line_count, newlines, trimmed};
use crate::grep::GrepPlan;
use crate::host::{Host, InstructionsPlan};
use crate::message::{DisplayMessage, SectionFlags, ToolInput, ToolOutput, ToolStatus};
use crate::owner::{instructions_owner, owner_answers, owner_of, BodyOwner};
use vstd::prelude::*;

verus! {

/// The lines of a text: one for every line feed, and one more for what stands
/// behind the last.
pub open spec fn lines_in(text: Seq<char>) -> nat {
    let ended = text.filter(|ch: char| ch == '\n').len();
    if text.len() > 0 && text.last() != '\n' {
        ended + 1
    } else {
        ended
    }
}

/// `text` up to `end` is all of it but the line feeds at its end.
pub open spec fn without_final_feeds(text: Seq<char>, end: int) -> bool {
    &&& 0 <= end <= text.len()
    &&& end > 0 ==> text[end - 1] != '\n'
    &&& forall|k: int| end <= k < text.len() ==> #[trigger] text[k] == '\n'
}

/// What a section hides: the entries behind the budget, if it has one, is not
/// expanded, and the host truncates them.
pub open spec fn hidden_entries(total: nat, limit: nat, expanded: bool, cut: bool) -> nat {
    if cut {
        over_budget(total, limit, expanded)
    } else {
        0
    }
}

/// The entries of a section behind the budget. A budget of zero is none.
pub open spec fn over_budget(total: nat, limit: nat, expanded: bool) -> nat {
    if !expanded && 0 < limit < total {
        (total - limit) as nat
    } else {
        0
    }
}

pub(crate) proof fn lines_are_counted(text: Seq<char>)
    ensures
        line_count(text) == lines_in(text),
{
    feeds_are_counted(text);
}

proof fn feeds_are_counted(text: Seq<char>)
    ensures
        newlines(text) == text.filter(|ch: char| ch == '\n').len(),
    decreases text.len(),
{
    reveal(Seq::filter);
    if text.len() > 0 {
        feeds_are_counted(text.drop_last());
    }
}

pub(crate) proof fn trimming_ends_there(text: Seq<char>, end: int)
    requires
        without_final_feeds(text, end),
    ensures
        trimmed(text) == text.take(end),
    decreases text.len(),
{
    if text.len() > 0 && text.last() == '\n' {
        if end == text.len() {
            assert(text[end - 1] == '\n');
        }
        let short = text.drop_last();
        assert(short.take(end) =~= text.take(end));
        assert forall|k: int| end <= k < short.len() implies #[trigger] short[k] == '\n' by {
            assert(text[k] == '\n');
        }
        trimming_ends_there(short, end);
    } else {
        if end < text.len() {
            assert(text[text.len() - 1] == '\n');
        }
        assert(text.take(end) =~= text);
    }
}

/// A tool block is settled and its body is in the message alone: nothing of it
/// is streaming, and no plugin streamed it.
pub open spec fn rests(message: DisplayMessage) -> bool {
    &&& message.role is Tool
    &&& message.role->Tool_0.status != ToolStatus::InProgress
    &&& message.render_snapshot is None
    &&& message.live_output is None
}

/// A settled text body is the renderer's exactly when none of its lines is
/// hidden, whether it is plain text, Markdown, a directory or a batch.
pub proof fn a_text_body_is_the_renderers_when_it_is_whole(
    message: DisplayMessage,
    text: Seq<char>,
    limit: nat,
    expanded: SectionFlags,
    cuts: SectionFlags,
    plan: GrepPlan,
)
    requires
        rests(message),
        message.tool_output matches Some(output) && match *output {
            ToolOutput::Plain(source) => source.text@ == text,
            ToolOutput::Markdown(source) => source.text@ == text,
            ToolOutput::ReadDir(source) => source.text@ == text,
            ToolOutput::Batch { text: source } => source@ == text,
            _ => false,
        },
    ensures
        owner_of(message, limit, expanded, cuts, plan) == BodyOwner::Lua <==> hidden_entries(
            lines_in(text),
            limit,
            expanded.output,
            cuts.output,
        ) == 0,
{
    lines_are_counted(text);
}

/// A settled todo list is the renderer's exactly when none of its items is
/// hidden.
pub proof fn a_todo_list_is_the_renderers_when_it_is_whole(
    message: DisplayMessage,
    items: nat,
    limit: nat,
    expanded: SectionFlags,
    cuts: SectionFlags,
    plan: GrepPlan,
)
    requires
        rests(message),
        message.tool_output matches Some(output) && *output is TodoList
            && (*output)->TodoList_0@.len() == items,
    ensures
        owner_of(message, limit, expanded, cuts, plan) == BodyOwner::Lua <==> hidden_entries(
            items,
            limit,
            expanded.output,
            cuts.output,
        ) == 0,
{
}

/// The script of a tool input.
pub open spec fn script_of(input: ToolInput) -> Seq<char> {
    match input {
        ToolInput::Code { language: _, code } => code@,
        ToolInput::Script { language: _, code } => code@,
    }
}

/// A settled read is the renderer's exactly when it has its script and neither
/// the script, the line feeds at its end aside, nor the lines read hide
/// anything.
pub proof fn a_read_is_the_renderers_when_both_sections_are_whole(
    message: DisplayMessage,
    end: int,
    limit: nat,
    expanded: SectionFlags,
    cuts: SectionFlags,
    plan: GrepPlan,
)
    requires
        rests(message),
        message.tool_output matches Some(output) && *output is ReadCode,
        message.tool_input matches Some(input) ==> without_final_feeds(script_of(*input), end),
    ensures
        owner_of(message, limit, expanded, cuts, plan) == BodyOwner::Lua <==> (
        message.tool_input matches Some(input) && hidden_entries(
            lines_in(script_of(*input).take(end)),
            limit,
            expanded.script,
            cuts.script,
        ) == 0 && hidden_entries(
            (*message.tool_output->Some_0)->ReadCode_lines@.len(),
            limit,
            expanded.output,
            cuts.output,
        ) == 0),
{
    if message.tool_input is Some {
        let input = *message.tool_input->Some_0;
        let script = script_of(input);
        trimming_ends_there(script, end);
        lines_are_counted(script.take(end));
    }
}

/// A settled diff is the renderer's; a grep result is when it found something,
/// is expanded and its layout leaves nothing out; any other output, and none,
/// stays with the host.
pub proof fn who_owns_the_other_bodies(
    message: DisplayMessage,
    limit: nat,
    expanded: SectionFlags,
    cuts: SectionFlags,
    plan: GrepPlan,
)
    requires
        rests(message),
    ensures
        message.tool_output matches Some(output) ==> {
            let owner = owner_of(message, limit, expanded, cuts, plan);
            &&& *output is Diff ==> owner == BodyOwner::Lua
            &&& *output is GrepResult ==> (owner == BodyOwner::Lua <==> (
            *output)->entries@.len() > 0 && expanded.output && !plan.truncated)
            &&& *output is Other ==> owner == BodyOwner::Host
        },
        message.tool_output is None ==> owner_of(message, limit, expanded, cuts, plan)
            == BodyOwner::Host,
{
}

/// A block that is no tool's is the renderer's; a tool block that does not rest
/// is the host's.
pub proof fn who_owns_without_asking(
    message: DisplayMessage,
    limit: nat,
    expanded: SectionFlags,
    cuts: SectionFlags,
    plan: GrepPlan,
)
    requires
        !rests(message),
    ensures
        owner_of(message, limit, expanded, cuts, plan) == BodyOwner::Lua <==> !(
        message.role is Tool),
{
}

/// What the host is asked before a block's owner is known: of a script, a text,
/// a todo list and a read, whether to truncate as many entries as are behind
/// the budget; of an expanded grep result, its layout without one.
pub proof fn the_host_is_asked_of_what_is_behind_the_budget<H: Host>(
    host: &H,
    message: &DisplayMessage,
    end: int,
    limit: usize,
    expanded: SectionFlags,
    cuts: SectionFlags,
    plan: GrepPlan,
)
    requires
        rests(*message),
        owner_answers(host, message, limit, expanded, cuts, plan),
        message.tool_input matches Some(input) ==> without_final_feeds(script_of(*input), end),
    ensures
        message.tool_input matches Some(input) ==> call_ensures(
            H::should_truncate,
            (
                host,
                over_budget(
                    lines_in(script_of(*input).take(end)),
                    limit as nat,
                    expanded.script,
                ) as usize,
            ),
            cuts.script,
        ),
        message.tool_output matches Some(output) ==> match *output {
            ToolOutput::Plain(source) => asked(host, lines_in(source.text@), limit, expanded, cuts),
            ToolOutput::Markdown(source) => asked(
                host,
                lines_in(source.text@),
                limit,
                expanded,
                cuts,
            ),
            ToolOutput::ReadDir(source) => asked(
                host,
                lines_in(source.text@),
                limit,
                expanded,
                cuts,
            ),
            ToolOutput::Batch { text } => asked(host, lines_in(text@), limit, expanded, cuts),
            ToolOutput::TodoList(items) => asked(host, items@.len(), limit, expanded, cuts),
            ToolOutput::ReadCode { lines, .. } => asked(host, lines@.len(), limit, expanded, cuts),
            ToolOutput::GrepResult { entries } => expanded.output ==> call_ensures(
                H::plan_grep_layout,
                (host, &entries, usize::MAX),
                plan,
            ),
            _ => true,
        },
{
    if message.tool_input is Some {
        let input = *message.tool_input->Some_0;
        let script = script_of(input);
        trimming_ends_there(script, end);
        lines_are_counted(script.take(end));
    }
    if message.tool_output is Some {
        let output = *message.tool_output->Some_0;
        match output {
            ToolOutput::Plain(source) => lines_are_counted(source.text@),
            ToolOutput::Markdown(source) => lines_are_counted(source.text@),
            ToolOutput::ReadDir(source) => lines_are_counted(source.text@),
            ToolOutput::Batch { text } => lines_are_counted(text@),
            _ => {},
        }
    }
}

/// The host was asked whether to truncate what is behind the budget of the
/// output.
pub open spec fn asked<H: Host>(
    host: &H,
    total: nat,
    limit: usize,
    expanded: SectionFlags,
    cuts: SectionFlags,
) -> bool {
    call_ensures(
        H::should_truncate,
        (host, over_budget(total, limit as nat, expanded.output) as usize),
        cuts.output,
    )
}

/// An instruction segment is the renderer's exactly when it has files, is
/// expanded, and its layout leaves nothing out.
pub proof fn who_owns_instructions(blocks: nat, expanded: bool, plan: InstructionsPlan)
    ensures
        instructions_owner(blocks, expanded, plan) == BodyOwner::Lua <==> expanded && blocks > 0
            && !plan.truncated,
{
}

} // verus!
