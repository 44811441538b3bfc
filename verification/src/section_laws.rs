//! What a renderer is told of a tool block's code, matches and header, and of
//! an instruction segment.

use crate::block_laws::{a_display_says, display_says, tool_is_in_the_block};
use crate::code::{input_tree, instruction_tree, instruction_trees, read_tree};
use crate::diff::diff_tree;
use crate::diff_laws::{a_diff_keeps_its_sources, a_diff_says_what_it_is_of};
use crate::grep::{entry_tree, group_tree, line_tree, ranges_valid, sliceable};
use crate::header::{color_text, inline_tree, line_trees, lines_trees, span_tree};
use crate::host::{Host, InstructionsPlan};
use crate::json::{field, has_field, Json};
use crate::message::{
    ByteRange, DisplayMessage, GrepFileEntry, GrepLine, GrepMatchGroup, InstructionBlock,
    SectionFlags, ToolInput, ToolOutput,
};
use crate::owner_laws::{
    hidden_entries, lines_are_counted, lines_in, over_budget, script_of, trimming_ends_there,
    without_final_feeds,
};
use crate::project::{
    answered, answers_fit, block_tree, countable, instructions_answered, instructions_tree, Answers,
    InstructionsAnswers,
};
use crate::snapshot::{InlineStyle, SnapshotLine, SpanColor, SpanStyle, SpanView};
use crate::text::{decimal, decimal_is_digits, digit, hex_byte};
use vstd::prelude::*;
use vstd::utf8::{encode_utf8, is_char_boundary};

verus! {

/// An instruction file is its path and its content.
pub open spec fn file_says(tree: Json, file: InstructionBlock) -> bool {
    &&& field(tree, "path"@) == Json::Str(file.path@)
    &&& field(tree, "content"@) == Json::Str(file.content@)
}

/// The files are all there, in order.
pub open spec fn files_say(tree: Json, files: Seq<InstructionBlock>) -> bool {
    tree matches Json::Arr(trees) && trees.len() == files.len() && forall|i: int|
        0 <= i < files.len() ==> file_says(#[trigger] trees[i], files[i])
}

/// The language of a tool input.
pub open spec fn language_of(input: ToolInput) -> Seq<char> {
    match input {
        ToolInput::Code { language, code: _ } => language@,
        ToolInput::Script { language, code: _ } => language@,
    }
}

proof fn files_are_told(files: Seq<InstructionBlock>)
    ensures
        files_say(Json::Arr(instruction_trees(files)), files),
{
    reveal_strlit("path");
    assert("path"@.len() == 4);
    reveal_strlit("content");
    assert("content"@.len() == 7);
    assert forall|i: int| 0 <= i < files.len() implies file_says(
        #[trigger] instruction_trees(files)[i],
        files[i],
    ) by {
        assert(instruction_trees(files)[i] == instruction_tree(files[i]));
    }
}

proof fn an_input_is_told(input: ToolInput, limit: nat, expanded: bool, cut: bool, end: int)
    requires
        without_final_feeds(script_of(input), end),
    ensures
        ({
            let tree = input_tree(input, limit, expanded, cut);
            let total = lines_in(script_of(input).take(end));
            &&& field(tree, "language"@) == Json::Str(language_of(input))
            &&& field(tree, "code"@) == Json::Str(script_of(input))
            &&& display_says(
                field(tree, "display"@),
                total,
                hidden_entries(total, limit, expanded, cut),
                limit,
                expanded,
            )
        }),
{
    reveal_strlit("language");
    assert("language"@.len() == 8);
    reveal_strlit("code");
    assert("code"@.len() == 4);
    reveal_strlit("display");
    assert("display"@.len() == 7);
    let script = script_of(input);
    trimming_ends_there(script, end);
    lines_are_counted(script.take(end));
    let total = lines_in(script.take(end));
    a_display_says(total, hidden_entries(total, limit, expanded, cut), limit, expanded);
}

/// What is told of a static read: where it is from, every line of it, and the
/// instruction files that came with it.
pub open spec fn read_says(
    tree: Json,
    output: ToolOutput,
    limit: nat,
    expanded: bool,
    cut: bool,
) -> bool {
    match output {
        ToolOutput::ReadCode { path, start_line, lines, total_lines, instructions } => {
            let total = lines@.len();
            &&& field(tree, "kind"@) == Json::Str("read_code"@)
            &&& field(tree, "path"@) == Json::Str(path@)
            &&& field(tree, "start_line"@) == Json::Num(start_line as nat)
            &&& field(tree, "total_lines"@) == Json::Num(total_lines as nat)
            &&& field(tree, "lines"@) matches Json::Arr(told) && told.len() == total && forall|
                i: int,
            |
                0 <= i < total ==> #[trigger] told[i] == Json::Str(lines@[i]@)
            &&& instructions is None ==> field(tree, "instructions"@) == Json::Null
            &&& instructions matches Some(files) ==> files_say(
                field(tree, "instructions"@),
                files@,
            )
            &&& display_says(
                field(tree, "display"@),
                total,
                hidden_entries(total, limit, expanded, cut),
                limit,
                expanded,
            )
        },
        _ => false,
    }
}

proof fn a_read_is_told(output: ToolOutput, limit: nat, expanded: bool, cut: bool)
    requires
        output is ReadCode,
    ensures
        read_tree(output, limit, expanded, cut) matches Some(tree) && read_says(
            tree,
            output,
            limit,
            expanded,
            cut,
        ),
{
    reveal_strlit("kind");
    assert("kind"@.len() == 4);
    reveal_strlit("path");
    assert("path"@.len() == 4);
    reveal_strlit("start_line");
    assert("start_line"@.len() == 10);
    reveal_strlit("lines");
    assert("lines"@.len() == 5);
    reveal_strlit("total_lines");
    assert("total_lines"@.len() == 11);
    reveal_strlit("instructions");
    assert("instructions"@.len() == 12);
    reveal_strlit("display");
    assert("display"@.len() == 7);
    assert("kind"@[0] != "path"@[0]);
    match output {
        ToolOutput::ReadCode { lines, instructions, .. } => {
            let total = lines@.len();
            a_display_says(total, hidden_entries(total, limit, expanded, cut), limit, expanded);
            if instructions is Some {
                files_are_told(instructions->Some_0@);
            }
        },
        _ => {},
    }
}

/// The code of a tool block is its script, whole and as it was written, and
/// the read that the tool returned. Either hides what is behind the budget
/// where the host truncates it; the line feeds a script ends in count for
/// nothing. A section that is not there is null.
pub proof fn code_says_what_was_run_and_read(
    message: DisplayMessage,
    limit: nat,
    expanded: SectionFlags,
    answers: Answers,
    end: int,
)
    requires
        message.role is Tool,
        message.tool_output matches Some(output) ==> *output is ReadCode,
        message.tool_output is None ==> message.tool_input is Some,
        message.tool_input matches Some(input) ==> without_final_feeds(script_of(*input), end),
    ensures
        ({
            let code = field(
                field(block_tree(message, limit, expanded, answers), "tool"@),
                "code"@,
            );
            let script = field(code, "input"@);
            &&& message.tool_input is None ==> script == Json::Null
            &&& message.tool_input matches Some(input) ==> {
                let total = lines_in(script_of(*input).take(end));
                &&& field(script, "language"@) == Json::Str(language_of(*input))
                &&& field(script, "code"@) == Json::Str(script_of(*input))
                &&& display_says(
                    field(script, "display"@),
                    total,
                    hidden_entries(total, limit, expanded.script, answers.cuts.script),
                    limit,
                    expanded.script,
                )
            }
            &&& message.tool_output is None ==> field(code, "output"@) == Json::Null
            &&& message.tool_output matches Some(output) ==> read_says(
                field(code, "output"@),
                *output,
                limit,
                expanded.output,
                answers.cuts.output,
            )
        }),
{
    reveal_strlit("code");
    assert("code"@.len() == 4);
    reveal_strlit("body");
    assert("body"@.len() == 4);
    reveal_strlit("diff");
    assert("diff"@.len() == 4);
    reveal_strlit("grep");
    assert("grep"@.len() == 4);
    reveal_strlit("input");
    assert("input"@.len() == 5);
    reveal_strlit("output");
    assert("output"@.len() == 6);
    assert("code"@[0] != "body"@[0]);
    assert("code"@[0] != "diff"@[0]);
    assert("code"@[0] != "grep"@[0]);
    assert("body"@[0] != "diff"@[0]);
    assert("body"@[0] != "grep"@[0]);
    assert("diff"@[0] != "grep"@[0]);
    tool_is_in_the_block(message, limit, expanded, answers);
    if message.tool_input is Some {
        let input = *message.tool_input->Some_0;
        an_input_is_told(input, limit, expanded.script, answers.cuts.script, end);
    }
    if message.tool_output is Some {
        let output = *message.tool_output->Some_0;
        a_read_is_told(output, limit, expanded.output, answers.cuts.output);
    }
}

/// A range of bytes that can be cut out of a text.
pub open spec fn can_cut(text: Seq<char>, range: ByteRange) -> bool {
    &&& range.start <= range.end <= encode_utf8(text).len()
    &&& is_char_boundary(encode_utf8(text), range.start as int)
    &&& is_char_boundary(encode_utf8(text), range.end as int)
}

/// A line of matches says its number, its text, whether grep reported it, and
/// where in it the matches are: all of them, or none when one of them cannot
/// be cut out of the text.
pub open spec fn line_says(tree: Json, line: GrepLine) -> bool {
    let ranges = line.match_ranges@;
    let sound = forall|k: int|
        0 <= k < ranges.len() ==> can_cut(line.text@, #[trigger] ranges[k]);
    &&& field(tree, "line"@) == Json::Num(line.line_nr as nat)
    &&& field(tree, "text"@) == Json::Str(line.text@)
    &&& field(tree, "is_match"@) == Json::Bool(line.is_match)
    &&& field(tree, "ranges"@) matches Json::Arr(told) && told.len() == (if sound {
        ranges.len()
    } else {
        0
    }) && forall|k: int|
        0 <= k < told.len() ==> {
            &&& field(#[trigger] told[k], "start_byte"@) == Json::Num(ranges[k].start as nat)
            &&& field(told[k], "end_byte"@) == Json::Num(ranges[k].end as nat)
        }
}

/// A group of lines has all of them, in order.
pub open spec fn group_says(tree: Json, group: GrepMatchGroup) -> bool {
    field(tree, "lines"@) matches Json::Arr(told) && told.len() == group.lines@.len() && forall|
        k: int,
    |
        0 <= k < told.len() ==> line_says(#[trigger] told[k], group.lines@[k])
}

/// The matches of a file: its path, to follow and to show, and all its groups,
/// in order.
pub open spec fn entry_says(tree: Json, entry: GrepFileEntry) -> bool {
    &&& field(tree, "path"@) == Json::Str(entry.path@)
    &&& field(tree, "display"@) == Json::Str(entry.path@)
    &&& field(tree, "groups"@) matches Json::Arr(told) && told.len() == entry.groups@.len()
        && forall|k: int|
        0 <= k < told.len() ==> group_says(#[trigger] told[k], entry.groups@[k])
}

proof fn a_line_is_told(line: GrepLine)
    ensures
        line_says(line_tree(line), line),
{
    reveal_strlit("line");
    assert("line"@.len() == 4);
    reveal_strlit("text");
    assert("text"@.len() == 4);
    reveal_strlit("is_match");
    assert("is_match"@.len() == 8);
    reveal_strlit("ranges");
    assert("ranges"@.len() == 6);
    reveal_strlit("start_byte");
    assert("start_byte"@.len() == 10);
    reveal_strlit("end_byte");
    assert("end_byte"@.len() == 8);
    assert("line"@[0] != "text"@[0]);
    assert("is_match"@[0] != "end_byte"@[0]);
    let ranges = line.match_ranges@;
    let sound = forall|k: int|
        0 <= k < ranges.len() ==> can_cut(line.text@, #[trigger] ranges[k]);
    if ranges_valid(line) {
        assert forall|k: int| 0 <= k < ranges.len() implies can_cut(
            line.text@,
            #[trigger] ranges[k],
        ) by {
            assert(sliceable(line.text@, line.match_ranges@[k]));
        }
    } else if sound {
        assert forall|k: int| 0 <= k < ranges.len() implies sliceable(
            line.text@,
            #[trigger] line.match_ranges@[k],
        ) by {
            assert(can_cut(line.text@, ranges[k]));
        }
    }
}

proof fn a_group_is_told(group: GrepMatchGroup)
    ensures
        group_says(group_tree(group), group),
{
    let told = group.lines@.map_values(|line: GrepLine| line_tree(line));
    assert forall|k: int| 0 <= k < told.len() implies line_says(
        #[trigger] told[k],
        group.lines@[k],
    ) by {
        a_line_is_told(group.lines@[k]);
    }
}

proof fn an_entry_is_told(entry: GrepFileEntry)
    ensures
        entry_says(entry_tree(entry), entry),
{
    reveal_strlit("path");
    assert("path"@.len() == 4);
    reveal_strlit("display");
    assert("display"@.len() == 7);
    reveal_strlit("groups");
    assert("groups"@.len() == 6);
    let told = entry.groups@.map_values(|group: GrepMatchGroup| group_tree(group));
    assert forall|k: int| 0 <= k < told.len() implies group_says(
        #[trigger] told[k],
        entry.groups@[k],
    ) by {
        a_group_is_told(entry.groups@[k]);
    }
}

/// The matches of a tool block are all that grep found, file by file, group by
/// group and line by line, with what the host's layout shows of them, and what
/// to show when there are none.
pub proof fn matches_say_what_grep_found(
    message: DisplayMessage,
    limit: nat,
    expanded: SectionFlags,
    answers: Answers,
)
    requires
        message.role is Tool,
        message.tool_output matches Some(output) && *output is GrepResult,
    ensures
        ({
            let entries = (*message.tool_output->Some_0)->entries@;
            let plan = answers.plan;
            let grep = field(
                field(block_tree(message, limit, expanded, answers), "tool"@),
                "grep"@,
            );
            let display = field(grep, "display"@);
            let counts = field(display, "limit"@);
            let cut = field(display, "truncation"@);
            let empty = field(grep, "empty"@);
            &&& field(grep, "entries"@) matches Json::Arr(told) && told.len() == entries.len()
                && forall|k: int|
                0 <= k < told.len() ==> entry_says(#[trigger] told[k], entries[k])
            &&& field(display, "expanded"@) == Json::Bool(expanded.output)
            &&& field(counts, "configured"@) == Json::Num(limit)
            &&& field(counts, "visible_lines"@) == Json::Num(plan.rows as nat)
            &&& field(counts, "total_lines"@) == Json::Num(plan.total_rows as nat)
            &&& !plan.truncated ==> cut == Json::Null
            &&& plan.truncated ==> field(cut, "hidden_matches"@) == Json::Num(
                plan.hidden_matches as nat,
            )
            &&& entries.len() > 0 ==> empty == Json::Null
            &&& entries.len() == 0 ==> field(empty, "label"@) == Json::Str("No files found"@)
                && field(empty, "group"@) == Json::Str("grep.empty"@)
        }),
{
    reveal_strlit("code");
    assert("code"@.len() == 4);
    reveal_strlit("body");
    assert("body"@.len() == 4);
    reveal_strlit("diff");
    assert("diff"@.len() == 4);
    reveal_strlit("grep");
    assert("grep"@.len() == 4);
    reveal_strlit("hidden_matches");
    assert("hidden_matches"@.len() == 14);
    reveal_strlit("label");
    assert("label"@.len() == 5);
    reveal_strlit("group");
    assert("group"@.len() == 5);
    reveal_strlit("configured");
    assert("configured"@.len() == 10);
    reveal_strlit("visible_lines");
    assert("visible_lines"@.len() == 13);
    reveal_strlit("total_lines");
    assert("total_lines"@.len() == 11);
    reveal_strlit("expanded");
    assert("expanded"@.len() == 8);
    reveal_strlit("limit");
    assert("limit"@.len() == 5);
    reveal_strlit("truncation");
    assert("truncation"@.len() == 10);
    reveal_strlit("entries");
    assert("entries"@.len() == 7);
    reveal_strlit("display");
    assert("display"@.len() == 7);
    reveal_strlit("empty");
    assert("empty"@.len() == 5);
    assert("code"@[0] != "body"@[0]);
    assert("code"@[0] != "diff"@[0]);
    assert("code"@[0] != "grep"@[0]);
    assert("body"@[0] != "diff"@[0]);
    assert("body"@[0] != "grep"@[0]);
    assert("diff"@[0] != "grep"@[0]);
    assert("label"@[0] != "group"@[0]);
    assert("label"@[1] != "limit"@[1]);
    assert("label"@[0] != "empty"@[0]);
    assert("group"@[0] != "limit"@[0]);
    assert("group"@[0] != "empty"@[0]);
    assert("configured"@[0] != "truncation"@[0]);
    assert("limit"@[0] != "empty"@[0]);
    assert("entries"@[0] != "display"@[0]);
    tool_is_in_the_block(message, limit, expanded, answers);
    let output = *message.tool_output->Some_0;
    let entries = output->entries@;
    let told = entries.map_values(|entry: GrepFileEntry| entry_tree(entry));
    assert forall|k: int| 0 <= k < told.len() implies entry_says(
        #[trigger] told[k],
        entries[k],
    ) by {
        an_entry_is_told(entries[k]);
    }
}

/// The diff of a tool block is of the two texts the tool returned, whole and
/// unchanged, with the hunks the host computed.
pub proof fn a_diff_says_what_changed(
    message: DisplayMessage,
    limit: nat,
    expanded: SectionFlags,
    answers: Answers,
)
    requires
        message.role is Tool,
    ensures
        message.tool_output matches Some(output) ==> (*output matches ToolOutput::Diff {
            path,
            before,
            after,
            summary,
        } ==> {
            let diff = field(
                field(block_tree(message, limit, expanded, answers), "tool"@),
                "diff"@,
            );
            let sources = field(diff, "sources"@);
            &&& field(diff, "path"@) == Json::Str(path@)
            &&& field(diff, "summary"@) == Json::Str(summary@)
            &&& field(sources, "before"@) == Json::Str(before@)
            &&& field(sources, "after"@) == Json::Str(after@)
            &&& diff == diff_tree(path@, before@, after@, summary@, answers.hunks@)
        }),
{
    reveal_strlit("code");
    assert("code"@.len() == 4);
    reveal_strlit("body");
    assert("body"@.len() == 4);
    reveal_strlit("diff");
    assert("diff"@.len() == 4);
    reveal_strlit("grep");
    assert("grep"@.len() == 4);
    assert("code"@[0] != "body"@[0]);
    assert("code"@[0] != "diff"@[0]);
    assert("code"@[0] != "grep"@[0]);
    assert("body"@[0] != "diff"@[0]);
    assert("body"@[0] != "grep"@[0]);
    assert("diff"@[0] != "grep"@[0]);
    tool_is_in_the_block(message, limit, expanded, answers);
    if message.tool_output is Some {
        let output = *message.tool_output->Some_0;
        match output {
            ToolOutput::Diff { path, before, after, summary } => {
                let hunks = answers.hunks@;
                a_diff_keeps_its_sources(path@, before@, after@, summary@, hunks);
                a_diff_says_what_it_is_of(path@, before@, after@, summary@, hunks);
            },
            _ => {},
        }
    }
}

/// The value of a lowercase hexadecimal digit.
pub open spec fn digit_value(ch: char) -> int {
    if '0' <= ch <= '9' {
        ch as int - '0' as int
    } else if 'a' <= ch <= 'f' {
        ch as int - 'a' as int + 10
    } else {
        -1
    }
}

/// The value of a numeral in decimal digits.
pub open spec fn numeral_value(text: Seq<char>) -> int
    decreases text.len(),
{
    if text.len() == 0 {
        0
    } else {
        10 * numeral_value(text.drop_last()) + digit_value(text.last())
    }
}

/// Two hexadecimal digits that name a byte.
pub open spec fn names_byte(text: Seq<char>, at: int, byte: u8) -> bool {
    &&& 0 <= digit_value(text[at]) < 16
    &&& 0 <= digit_value(text[at + 1]) < 16
    &&& 16 * digit_value(text[at]) + digit_value(text[at + 1]) == byte
}

/// A colour is written as `#rrggbb`, as its number, or as `default`.
pub open spec fn names_color(text: Seq<char>, color: SpanColor) -> bool {
    match color {
        SpanColor::Rgb((r, g, b)) => {
            &&& text.len() == 7
            &&& text[0] == '#'
            &&& names_byte(text, 1, r)
            &&& names_byte(text, 3, g)
            &&& names_byte(text, 5, b)
        },
        SpanColor::Ansi(index) => {
            &&& text.len() > 0
            &&& forall|k: int| 0 <= k < text.len() ==> '0' <= #[trigger] text[k] <= '9'
            &&& text.len() > 1 ==> text[0] != '0'
            &&& numeral_value(text) == index
        },
        SpanColor::Default => text == "default"@,
    }
}

pub(crate) proof fn a_numeral_has_its_value(n: nat)
    ensures
        numeral_value(decimal(n)) == n,
        decimal(n).len() > 1 ==> decimal(n)[0] != '0',
        n > 0 ==> decimal(n)[0] != '0',
        decimal(n).len() > 0,
    decreases n,
{
    if n >= 10 {
        a_numeral_has_its_value(n / 10);
        assert(decimal(n).drop_last() =~= decimal(n / 10));
        assert(decimal(n).last() == digit(n % 10));
        assert(decimal(n)[0] == decimal(n / 10)[0]);
    } else {
        assert(decimal(n).drop_last() =~= seq![]);
        assert(numeral_value(decimal(n).drop_last()) == 0);
    }
}

proof fn a_color_is_told(color: SpanColor)
    ensures
        names_color(color_text(color), color),
{
    match color {
        SpanColor::Rgb((r, g, b)) => {
            let text = color_text(color);
            assert(text[1] == hex_byte(r as nat)[0] && text[2] == hex_byte(r as nat)[1]);
            assert(text[3] == hex_byte(g as nat)[0] && text[4] == hex_byte(g as nat)[1]);
            assert(text[5] == hex_byte(b as nat)[0] && text[6] == hex_byte(b as nat)[1]);
        },
        SpanColor::Ansi(index) => {
            decimal_is_digits(index as nat);
            a_numeral_has_its_value(index as nat);
        },
        SpanColor::Default => {},
    }
}

/// An object has a colour field exactly when there is a colour, and it names
/// that one.
pub open spec fn says_color(tree: Json, key: Seq<char>, color: Option<SpanColor>) -> bool {
    &&& has_field(tree, key) <==> color is Some
    &&& color matches Some(color) ==> (field(tree, key) matches Json::Str(text) && names_color(
        text,
        color,
    ))
}

/// An object has a field exactly when the attribute is on, and it is `true`.
pub open spec fn says_flag(tree: Json, key: Seq<char>, on: bool) -> bool {
    &&& has_field(tree, key) <==> on
    &&& on ==> field(tree, key) == Json::Bool(true)
}

/// A style says each of its colours and each attribute that is on.
pub open spec fn style_says(tree: Json, style: InlineStyle) -> bool {
    &&& says_color(tree, "fg"@, style.fg)
    &&& says_color(tree, "bg"@, style.bg)
    &&& says_color(tree, "underline_color"@, style.underline_color)
    &&& says_flag(tree, "bold"@, style.bold)
    &&& says_flag(tree, "italic"@, style.italic)
    &&& says_flag(tree, "underline"@, style.underline)
    &&& says_flag(tree, "dim"@, style.dim)
    &&& says_flag(tree, "strikethrough"@, style.strikethrough)
    &&& says_flag(tree, "reversed"@, style.reversed)
    &&& says_flag(tree, "hidden"@, style.hidden)
    &&& says_flag(tree, "slow_blink"@, style.slow_blink)
    &&& says_flag(tree, "rapid_blink"@, style.rapid_blink)
}

proof fn a_style_is_told(style: InlineStyle)
    ensures
        style_says(inline_tree(style), style),
{
    reveal_strlit("fg");
    assert("fg"@.len() == 2);
    reveal_strlit("bg");
    assert("bg"@.len() == 2);
    reveal_strlit("underline_color");
    assert("underline_color"@.len() == 15);
    reveal_strlit("bold");
    assert("bold"@.len() == 4);
    reveal_strlit("italic");
    assert("italic"@.len() == 6);
    reveal_strlit("underline");
    assert("underline"@.len() == 9);
    reveal_strlit("dim");
    assert("dim"@.len() == 3);
    reveal_strlit("strikethrough");
    assert("strikethrough"@.len() == 13);
    reveal_strlit("reversed");
    assert("reversed"@.len() == 8);
    reveal_strlit("hidden");
    assert("hidden"@.len() == 6);
    reveal_strlit("slow_blink");
    assert("slow_blink"@.len() == 10);
    reveal_strlit("rapid_blink");
    assert("rapid_blink"@.len() == 11);
    assert("fg"@[0] != "bg"@[0]);
    assert("italic"@[0] != "hidden"@[0]);
    if style.fg is Some {
        a_color_is_told(style.fg->Some_0);
    }
    if style.bg is Some {
        a_color_is_told(style.bg->Some_0);
    }
    if style.underline_color is Some {
        a_color_is_told(style.underline_color->Some_0);
    }
}

/// A span is its text and, where it has one, its style: by name, as a spinner
/// where the host knows the name for one, or as a table.
pub open spec fn span_says(
    tree: Json,
    text: Seq<char>,
    style: SpanStyle,
    token: Option<String>,
) -> bool {
    &&& tree matches Json::Arr(parts)
    &&& parts.len() == if style is Default {
        1nat
    } else {
        2
    }
    &&& parts[0] == Json::Str(text)
    &&& style matches SpanStyle::Named(name) ==> match token {
        Some(token) => field(parts[1], "spinner"@) == Json::Str(token@),
        None => parts[1] == Json::Str(name@),
    }
    &&& style matches SpanStyle::Inline(inline) ==> style_says(parts[1], inline)
}

/// A line is all its spans, in order.
pub open spec fn line_of_spans_says(
    tree: Json,
    line: SnapshotLine,
    tokens: Seq<Option<String>>,
) -> bool {
    tree matches Json::Arr(told) && told.len() == line.spans@.len() && forall|k: int|
        0 <= k < told.len() ==> span_says(
            #[trigger] told[k],
            line.spans@[k].text@,
            line.spans@[k].style,
            tokens[k],
        )
}

/// The header that a plugin drew reaches the renderer whole: every line, every
/// span and every style of it, in order.
pub proof fn a_drawn_header_is_told_whole(
    message: DisplayMessage,
    limit: nat,
    expanded: SectionFlags,
    answers: Answers,
)
    requires
        message.role is Tool,
        message.render_header is Some,
        answers_fit(message, answers),
    ensures
        ({
            let lines = message.render_header->Some_0.lines@;
            let header = field(
                field(block_tree(message, limit, expanded, answers), "tool"@),
                "header"@,
            );
            &&& field(header, "lines"@) matches Json::Arr(told) && told.len() == lines.len()
                && forall|i: int|
                0 <= i < told.len() ==> line_of_spans_says(
                    #[trigger] told[i],
                    lines[i],
                    answers.tokens@[i]@,
                )
        }),
{
    reveal_strlit("code");
    assert("code"@.len() == 4);
    reveal_strlit("body");
    assert("body"@.len() == 4);
    reveal_strlit("diff");
    assert("diff"@.len() == 4);
    reveal_strlit("grep");
    assert("grep"@.len() == 4);
    reveal_strlit("header");
    assert("header"@.len() == 6);
    reveal_strlit("body_authority");
    assert("body_authority"@.len() == 14);
    reveal_strlit("kind");
    assert("kind"@.len() == 4);
    reveal_strlit("lines");
    assert("lines"@.len() == 5);
    reveal_strlit("spinner");
    assert("spinner"@.len() == 7);
    assert("code"@[0] != "body"@[0]);
    assert("code"@[0] != "diff"@[0]);
    assert("code"@[0] != "grep"@[0]);
    assert("code"@[0] != "kind"@[0]);
    assert("body"@[0] != "diff"@[0]);
    assert("body"@[0] != "grep"@[0]);
    assert("body"@[0] != "kind"@[0]);
    assert("diff"@[0] != "grep"@[0]);
    assert("diff"@[0] != "kind"@[0]);
    assert("grep"@[0] != "kind"@[0]);
    tool_is_in_the_block(message, limit, expanded, answers);
    let lines = message.render_header->Some_0.lines@;
    let told = lines_trees(lines, answers.tokens@);
    assert forall|i: int| 0 <= i < told.len() implies line_of_spans_says(
        #[trigger] told[i],
        lines[i],
        answers.tokens@[i]@,
    ) by {
        let tokens = answers.tokens@[i]@;
        let spans = line_trees(lines[i]@, tokens);
        assert forall|k: int| 0 <= k < spans.len() implies span_says(
            #[trigger] spans[k],
            lines[i].spans@[k].text@,
            lines[i].spans@[k].style,
            tokens[k],
        ) by {
            a_span_is_told(lines[i]@[k], tokens[k]);
        }
    }
}

proof fn a_span_is_told(span: SpanView, token: Option<String>)
    ensures
        span_says(span_tree(span, token), span.text, span.style, token),
{
    if let SpanStyle::Inline(inline) = span.style {
        a_style_is_told(inline);
    }
}

/// A projection asks the host what it needs to know: whether to truncate just
/// what is behind the budget of each section, for the hunks between the two
/// texts of a diff, for the layout of a grep result under the budget, or under
/// none when it is expanded, and for the spinner of each named style.
pub proof fn the_host_answers_for_the_projection<H: Host>(
    host: &H,
    message: &DisplayMessage,
    limit: usize,
    expanded: SectionFlags,
    answers: Answers,
    end: int,
    i: int,
    j: int,
)
    requires
        message.role is Tool,
        answered(host, message, limit, expanded, answers),
        message.tool_input matches Some(input) ==> without_final_feeds(script_of(*input), end),
    ensures
        message.tool_input matches Some(input) ==> call_ensures(
            H::should_truncate,
            (
                host,
                over_budget(
                    lines_in(script_of(*input).take(end)),
                    limit as nat,
                    expanded.script,
                ) as usize,
            ),
            answers.cuts.script,
        ),
        message.tool_output matches Some(output) ==> match *output {
            ToolOutput::ReadCode { lines, .. } => call_ensures(
                H::should_truncate,
                (host, over_budget(lines@.len(), limit as nat, expanded.output) as usize),
                answers.cuts.output,
            ),
            ToolOutput::Diff { before, after, .. } => call_ensures(
                H::compute_hunks,
                (host, &before, &after),
                answers.hunks,
            ),
            ToolOutput::GrepResult { entries } => {
                &&& expanded.output ==> call_ensures(
                    H::plan_grep_layout,
                    (host, &entries, usize::MAX),
                    answers.plan,
                )
                &&& !expanded.output ==> call_ensures(
                    H::plan_grep_layout,
                    (host, &entries, limit),
                    answers.plan,
                )
            },
            _ => true,
        },
        message.render_header matches Some(header) ==> {
            &&& answers.tokens@.len() == header.lines@.len()
            &&& 0 <= i < header.lines@.len() ==> {
                let spans = header.lines@[i].spans@;
                &&& answers.tokens@[i]@.len() == spans.len()
                &&& 0 <= j < spans.len() ==> (spans[j].style matches SpanStyle::Named(name)
                    ==> call_ensures(H::spinner_token, (host, &name), answers.tokens@[i]@[j]))
            }
        },
{
    if message.tool_input is Some {
        let input = *message.tool_input->Some_0;
        let script = script_of(input);
        trimming_ends_there(script, end);
        lines_are_counted(script.take(end));
    }
    if message.render_header is Some {
        let header = message.render_header->Some_0;
        if 0 <= i < header.lines@.len() && 0 <= j < header.lines@[i].spans@.len() {
            assert(answers.tokens@[i]@.len() == header.lines@[i].spans@.len());
            let token = answers.tokens@[i]@[j];
        }
    }
}

/// An instruction segment says whose it is, its header, all its files in order,
/// and how much of it is drawn.
pub proof fn a_segment_says_what_was_loaded(
    id: Seq<char>,
    parent_id: Seq<char>,
    files: Seq<InstructionBlock>,
    limit: nat,
    expanded: bool,
    answers: InstructionsAnswers,
)
    requires
        countable(answers),
    ensures
        ({
            let block = instructions_tree(id, parent_id, files, limit, expanded, answers);
            let header = field(block, "header"@);
            let display = field(block, "display"@);
            let counts = field(display, "limit"@);
            let cut = field(display, "truncation"@);
            &&& field(block, "kind"@) == Json::Str("instructions"@)
            &&& field(block, "id"@) == Json::Str(id)
            &&& field(block, "parent_id"@) == Json::Str(parent_id)
            &&& field(block, "phase"@) == Json::Str("complete"@)
            &&& files_say(field(block, "blocks"@), files)
            &&& field(header, "name"@) == Json::Str("load"@)
            &&& field(header, "text"@) == Json::Str(answers.text@)
            &&& answers.annotation is None ==> field(header, "annotation"@) == Json::Null
            &&& answers.annotation matches Some(note) ==> field(header, "annotation"@)
                == Json::Str(note@)
            &&& field(display, "expanded"@) == Json::Bool(expanded)
            &&& field(counts, "configured"@) == Json::Num(limit)
            &&& field(counts, "visible_lines"@) == Json::Num(answers.plan.rows as nat)
            &&& field(counts, "total_lines"@) == Json::Num(answers.total as nat)
            &&& !answers.plan.truncated ==> cut == Json::Null
            &&& answers.plan.truncated ==> field(cut, "hidden_lines"@) == Json::Num(
                (answers.total - answers.plan.rows) as nat,
            )
        }),
{
    reveal_strlit("kind");
    assert("kind"@.len() == 4);
    reveal_strlit("id");
    assert("id"@.len() == 2);
    reveal_strlit("parent_id");
    assert("parent_id"@.len() == 9);
    reveal_strlit("phase");
    assert("phase"@.len() == 5);
    reveal_strlit("header");
    assert("header"@.len() == 6);
    reveal_strlit("blocks");
    assert("blocks"@.len() == 6);
    reveal_strlit("display");
    assert("display"@.len() == 7);
    reveal_strlit("name");
    assert("name"@.len() == 4);
    reveal_strlit("text");
    assert("text"@.len() == 4);
    reveal_strlit("annotation");
    assert("annotation"@.len() == 10);
    reveal_strlit("configured");
    assert("configured"@.len() == 10);
    reveal_strlit("visible_lines");
    assert("visible_lines"@.len() == 13);
    reveal_strlit("total_lines");
    assert("total_lines"@.len() == 11);
    reveal_strlit("hidden_lines");
    assert("hidden_lines"@.len() == 12);
    reveal_strlit("expanded");
    assert("expanded"@.len() == 8);
    reveal_strlit("limit");
    assert("limit"@.len() == 5);
    reveal_strlit("truncation");
    assert("truncation"@.len() == 10);
    assert("kind"@[0] != "name"@[0]);
    assert("kind"@[0] != "text"@[0]);
    assert("phase"@[0] != "limit"@[0]);
    assert("header"@[0] != "blocks"@[0]);
    assert("name"@[0] != "text"@[0]);
    assert("annotation"@[0] != "configured"@[0]);
    assert("annotation"@[0] != "truncation"@[0]);
    assert("configured"@[0] != "truncation"@[0]);
    files_are_told(files);
}

/// The host lays a segment out under its budget, or under none when it is
/// expanded, and once more without a budget to count all its rows.
pub proof fn the_host_answers_for_a_segment<H: Host>(
    host: &H,
    files: &Vec<InstructionBlock>,
    limit: usize,
    expanded: bool,
    answers: InstructionsAnswers,
)
    requires
        instructions_answered(host, files, limit, expanded, answers),
    ensures
        expanded ==> call_ensures(
            H::plan_instructions_layout,
            (host, files, usize::MAX),
            answers.plan,
        ) && answers.plan.rows == answers.total,
        !expanded ==> call_ensures(
            H::plan_instructions_layout,
            (host, files, limit),
            answers.plan,
        ) && exists|full: InstructionsPlan| #[trigger]
            call_ensures(H::plan_instructions_layout, (host, files, usize::MAX), full) && full.rows
                == answers.total,
        call_ensures(H::instructions_header, (host, files), (answers.text, answers.annotation)),
{
}

} // verus!
