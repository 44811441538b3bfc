//! What holds of every projected block and of who owns its lines.

use crate::body::{body_tree, display_tree, shown};
use crate::code::{code_tree, input_lines};
use crate::grep::{grep_tree, line_tree, match_tree, match_trees, ranges_valid, sliceable, GrepPlan};
use crate::header::color_text;
use crate::host::{Host, InstructionsPlan};
use crate::json::{field, has_field, Json};
use crate::message::{
    authority_name, DisplayMessage, GrepFileEntry, GrepLine, ImageSource, InstructionBlock,
    SectionFlags, ToolOutput, ToolStatus,
};
use crate::owner::{
    fits, instructions_owner, output_lines, owner_of, streamed, undecided, BodyOwner,
};
use crate::project::{
    block_tree, countable, image_trees, instructions_answered, instructions_tree, Answers,
    InstructionsAnswers,
};
use crate::snapshot::SpanColor;
use crate::text::{decimal, decimal_is_digits, digit, hex_byte, hex_digit};
use vstd::prelude::*;
use vstd::utf8::encode_utf8;

verus! {

/// Whether two lists of images differ in their payload alone: the types and
/// sizes agree.
pub open spec fn same_descriptors(a: Seq<ImageSource>, b: Seq<ImageSource>) -> bool {
    &&& a.len() == b.len()
    &&& forall|k: int|
        0 <= k < a.len() ==> (#[trigger] a[k]).media_type@ == b[k].media_type@ && encode_utf8(
            (*a[k].data)@,
        ).len() == encode_utf8((*b[k].data)@).len()
}

/// The payload of an image never reaches a renderer: messages that differ in
/// nothing else project to the same block.
pub proof fn a_payload_never_reaches_a_renderer(
    message: DisplayMessage,
    images: Vec<ImageSource>,
    limit: nat,
    expanded: SectionFlags,
    answers: Answers,
)
    requires
        same_descriptors(message.images@, images@),
    ensures
        block_tree(message, limit, expanded, answers) == block_tree(
            (DisplayMessage { images, ..message }),
            limit,
            expanded,
            answers,
        ),
{
    assert(image_trees(message.images@) =~= image_trees(images@));
}

/// A block has a `tool` object exactly when the message is a tool's.
pub proof fn only_tool_blocks_carry_a_tool(
    message: DisplayMessage,
    limit: nat,
    expanded: SectionFlags,
    answers: Answers,
)
    ensures
        has_field(block_tree(message, limit, expanded, answers), "tool"@) <==> message.role is Tool,
{
    reveal_strlit("tool");
    assert("tool"@.len() == 4);
    reveal_strlit("kind");
    assert("kind"@.len() == 4);
    reveal_strlit("text");
    assert("text"@.len() == 4);
    reveal_strlit("phase");
    assert("phase"@.len() == 5);
    reveal_strlit("images");
    assert("images"@.len() == 6);
    reveal_strlit("thinking_collapsed");
    assert("thinking_collapsed"@.len() == 18);
    reveal_strlit("annotation");
    assert("annotation"@.len() == 10);
    reveal_strlit("timestamp");
    assert("timestamp"@.len() == 9);
    reveal_strlit("turn_usage");
    assert("turn_usage"@.len() == 10);
    reveal_strlit("plan_path");
    assert("plan_path"@.len() == 9);
    assert("tool"@[0] != "kind"@[0]);
    assert("tool"@[1] != "text"@[1]);
}

/// An instruction segment is its own kind of block: it carries no `tool`
/// object and so no body authority.
pub proof fn instructions_are_not_a_tool(
    id: Seq<char>,
    parent_id: Seq<char>,
    blocks: Seq<InstructionBlock>,
    limit: nat,
    expanded: bool,
    answers: InstructionsAnswers,
)
    ensures
        ({
            let tree = instructions_tree(id, parent_id, blocks, limit, expanded, answers);
            &&& !has_field(tree, "tool"@)
            &&& !has_field(tree, "body_authority"@)
            &&& field(tree, "kind"@) == Json::Str("instructions"@)
            &&& answers.plan.truncated <==> field(field(tree, "display"@), "truncation"@)
                != Json::Null
        }),
{
    reveal_strlit("tool");
    assert("tool"@.len() == 4);
    reveal_strlit("body_authority");
    assert("body_authority"@.len() == 14);
    reveal_strlit("kind");
    assert("kind"@.len() == 4);
    reveal_strlit("id");
    assert("id"@.len() == 2);
    reveal_strlit("parent_id");
    assert("parent_id"@.len() == 9);
    reveal_strlit("phase");
    assert("phase"@.len() == 5);
    reveal_strlit("header");
    assert("header"@.len() == 6);
    reveal_strlit("blocks");
    assert("blocks"@.len() == 6);
    reveal_strlit("display");
    assert("display"@.len() == 7);
    reveal_strlit("expanded");
    assert("expanded"@.len() == 8);
    reveal_strlit("limit");
    assert("limit"@.len() == 5);
    reveal_strlit("truncation");
    assert("truncation"@.len() == 10);
    assert("tool"@[0] != "kind"@[0]);
    assert("header"@[0] != "blocks"@[0]);
}

/// The authority a block names is `none` exactly when the host holds no
/// streamed body.
pub proof fn authority_is_none_without_a_streamed_body(message: DisplayMessage)
    ensures
        authority_name(message) == "none"@ <==> !streamed(message),
{
    reveal_strlit("none");
    assert("none"@.len() == 4);
    reveal_strlit("live");
    assert("live"@.len() == 4);
    reveal_strlit("snapshot");
    assert("snapshot"@.len() == 8);
    assert("none"@[0] != "live"@[0]);
}

/// A renderer never takes over a body that is still streaming, that a plugin
/// streamed, or that is not there, whatever the host answers.
pub proof fn an_unsettled_or_streamed_body_stays_with_the_host(
    message: DisplayMessage,
    limit: nat,
    expanded: SectionFlags,
    cuts: SectionFlags,
    plan: GrepPlan,
)
    requires
        message.role is Tool,
        streamed(message) || message.role->Tool_0.status == ToolStatus::InProgress
            || message.tool_output is None,
    ensures
        owner_of(message, limit, expanded, cuts, plan) == BodyOwner::Host,
{
}

/// Only a settled tool block whose body was not streamed depends on what the
/// host answers.
pub proof fn a_decided_owner_depends_on_no_answer(
    message: DisplayMessage,
    limit: nat,
    expanded: SectionFlags,
    cuts: SectionFlags,
    plan: GrepPlan,
    other_cuts: SectionFlags,
    other_plan: GrepPlan,
)
    requires
        !undecided(message),
    ensures
        owner_of(message, limit, expanded, cuts, plan) == owner_of(
            message,
            limit,
            expanded,
            other_cuts,
            other_plan,
        ),
{
}

/// An expanded section is never cut, so a counted body that is expanded is
/// the renderer's.
pub proof fn an_expanded_section_fits(total: nat, limit: nat, cut: bool)
    ensures
        fits(total, limit, true, cut),
        fits(total, 0, false, cut),
        total <= limit ==> fits(total, limit, false, cut),
{
}

/// A settled diff is the renderer's: it is never truncated.
pub proof fn a_settled_diff_is_the_renderers(
    message: DisplayMessage,
    limit: nat,
    expanded: SectionFlags,
    cuts: SectionFlags,
    plan: GrepPlan,
)
    requires
        undecided(message),
        message.tool_output matches Some(output) && *output is Diff,
    ensures
        owner_of(message, limit, expanded, cuts, plan) == BodyOwner::Lua,
{
}

proof fn truncation_is_null(total: nat, limit: nat, expanded: bool, visible: nat)
    ensures
        field(display_tree(total, visible, limit, expanded), "truncation"@) == Json::Null
            <==> total <= visible,
{
    reveal_strlit("expanded");
    assert("expanded"@.len() == 8);
    reveal_strlit("limit");
    assert("limit"@.len() == 5);
    reveal_strlit("truncation");
    assert("truncation"@.len() == 10);
}

/// The host keeps a settled text or todo body only when the projection says
/// that something of it is hidden.
pub proof fn the_host_keeps_only_truncated_text(
    message: DisplayMessage,
    output: ToolOutput,
    limit: nat,
    expanded: SectionFlags,
    cuts: SectionFlags,
    plan: GrepPlan,
)
    requires
        undecided(message),
        message.tool_output matches Some(returned) && *returned == output,
        body_tree(output, limit, expanded.output) is Some,
        owner_of(message, limit, expanded, cuts, plan) == BodyOwner::Host,
    ensures
        field(
            field(body_tree(output, limit, expanded.output)->Some_0, "display"@),
            "truncation"@,
        ) != Json::Null,
{
    reveal_strlit("kind");
    assert("kind"@.len() == 4);
    reveal_strlit("text");
    assert("text"@.len() == 4);
    reveal_strlit("legacy");
    assert("legacy"@.len() == 6);
    reveal_strlit("items");
    assert("items"@.len() == 5);
    reveal_strlit("empty");
    assert("empty"@.len() == 5);
    reveal_strlit("display");
    assert("display"@.len() == 7);
    let total = output_lines(output)->Some_0;
    truncation_is_null(
        total,
        limit,
        expanded.output,
        shown(total, limit, expanded.output),
    );
}

/// A code body is the renderer's only when neither of its sections is
/// truncated.
pub proof fn the_renderer_owns_only_whole_code(
    message: DisplayMessage,
    limit: nat,
    expanded: SectionFlags,
    cuts: SectionFlags,
    plan: GrepPlan,
)
    requires
        undecided(message),
        message.tool_output matches Some(output) && *output is ReadCode,
        owner_of(message, limit, expanded, cuts, plan) == BodyOwner::Lua,
    ensures
        code_tree(message, limit, expanded, cuts) matches Some(code) && field(
            field(field(code, "input"@), "display"@),
            "truncation"@,
        ) == Json::Null && field(field(field(code, "output"@), "display"@), "truncation"@)
            == Json::Null,
{
    reveal_strlit("input");
    assert("input"@.len() == 5);
    reveal_strlit("output");
    assert("output"@.len() == 6);
    reveal_strlit("language");
    assert("language"@.len() == 8);
    reveal_strlit("code");
    assert("code"@.len() == 4);
    reveal_strlit("display");
    assert("display"@.len() == 7);
    reveal_strlit("kind");
    reveal_strlit("path");
    reveal_strlit("start_line");
    reveal_strlit("lines");
    reveal_strlit("total_lines");
    reveal_strlit("instructions");
    let input = *message.tool_input->Some_0;
    let output = *message.tool_output->Some_0;
    let script = input_lines(input);
    let read = output->ReadCode_lines@.len();
    truncation_is_null(script, limit, expanded.script, script);
    truncation_is_null(read, limit, expanded.output, read);
}

/// A grep body is the renderer's only when it has matches, is expanded, and
/// its projection shows no truncation.
pub proof fn the_renderer_owns_only_whole_grep(
    message: DisplayMessage,
    entries: Seq<GrepFileEntry>,
    limit: nat,
    expanded: SectionFlags,
    cuts: SectionFlags,
    plan: GrepPlan,
)
    requires
        undecided(message),
        message.tool_output matches Some(output) && *output is GrepResult
            && (*output)->entries@ == entries,
    ensures
        owner_of(message, limit, expanded, cuts, plan) == BodyOwner::Lua <==> entries.len() > 0
            && expanded.output && field(
            field(grep_tree(entries, limit, expanded.output, plan), "display"@),
            "truncation"@,
        ) == Json::Null,
{
    reveal_strlit("entries");
    assert("entries"@.len() == 7);
    reveal_strlit("display");
    assert("display"@.len() == 7);
    reveal_strlit("empty");
    assert("empty"@.len() == 5);
    reveal_strlit("expanded");
    assert("expanded"@.len() == 8);
    reveal_strlit("limit");
    assert("limit"@.len() == 5);
    reveal_strlit("truncation");
    assert("truncation"@.len() == 10);
    assert("entries"@[0] != "display"@[0]);
}

/// An expanded instruction segment shows all its lines: as many are visible as
/// there are, and none is counted as hidden. Collapsed or not, what is visible
/// and what is hidden add up.
pub proof fn an_expanded_segment_shows_all_its_lines<H: Host>(
    host: &H,
    id: Seq<char>,
    parent_id: Seq<char>,
    blocks: &Vec<InstructionBlock>,
    limit: usize,
    expanded: bool,
    answers: InstructionsAnswers,
)
    requires
        instructions_answered(host, blocks, limit, expanded, answers),
    ensures
        ({
            let tree = instructions_tree(
                id,
                parent_id,
                blocks@,
                limit as nat,
                expanded,
                answers,
            );
            let display = field(tree, "display"@);
            let counts = field(display, "limit"@);
            let hidden = field(display, "truncation"@);
            &&& expanded ==> countable(answers) && field(counts, "visible_lines"@) == field(
                counts,
                "total_lines"@,
            ) && (answers.plan.truncated ==> field(hidden, "hidden_lines"@) == Json::Num(0))
            &&& countable(answers) && answers.plan.truncated ==> field(hidden, "hidden_lines"@)
                == Json::Num((answers.total - answers.plan.rows) as nat)
            &&& !answers.plan.truncated ==> hidden == Json::Null
            &&& field(counts, "visible_lines"@) == Json::Num(answers.plan.rows as nat)
            &&& field(counts, "total_lines"@) == Json::Num(answers.total as nat)
        }),
{
    reveal_strlit("limit");
    assert("limit"@.len() == 5);
    reveal_strlit("truncation");
    assert("truncation"@.len() == 10);
    reveal_strlit("visible_lines");
    assert("visible_lines"@.len() == 13);
    reveal_strlit("total_lines");
    assert("total_lines"@.len() == 11);
}

/// The host keeps every collapsed, truncated or empty instruction segment.
pub proof fn the_host_keeps_collapsed_instructions(
    blocks: nat,
    expanded: bool,
    plan: InstructionsPlan,
)
    ensures
        instructions_owner(blocks, expanded, plan) == BodyOwner::Host <==> !expanded || blocks == 0
            || plan.truncated,
{
}

/// Every range a grep line hands out can be sliced out of its text; a line
/// with one bad range hands out none. Whether the line is a match does not
/// depend on them.
pub proof fn grep_ranges_can_be_sliced(line: GrepLine, k: int)
    ensures
        0 <= k < match_trees(line).len() ==> match_trees(line).len() == line.match_ranges@.len()
            && sliceable(line.text@, line.match_ranges@[k]) && match_trees(line)[k] == match_tree(
            line.match_ranges@[k],
        ),
        !ranges_valid(line) ==> match_trees(line).len() == 0,
        field(line_tree(line), "is_match"@) == Json::Bool(line.is_match),
{
    reveal_strlit("line");
    assert("line"@.len() == 4);
    reveal_strlit("text");
    assert("text"@.len() == 4);
    reveal_strlit("is_match");
    assert("is_match"@.len() == 8);
    reveal_strlit("ranges");
    assert("ranges"@.len() == 6);
    if 0 <= k < match_trees(line).len() {
        assert(sliceable(line.text@, line.match_ranges@[k]));
    }
}

proof fn decimal_tells_numbers_apart(a: nat, b: nat)
    requires
        decimal(a) == decimal(b),
    ensures
        a == b,
    decreases a,
{
    decimal_is_digits(a / 10);
    decimal_is_digits(b / 10);
    if a < 10 && b < 10 {
        assert(decimal(a)[0] == digit(a));
        assert(decimal(b)[0] == digit(b));
    } else if a < 10 {
        assert(decimal(b).len() == decimal(b / 10).len() + 1);
    } else if b < 10 {
        assert(decimal(a).len() == decimal(a / 10).len() + 1);
    } else {
        assert(decimal(a).last() == digit(a % 10));
        assert(decimal(b).last() == digit(b % 10));
        assert(decimal(a).drop_last() =~= decimal(a / 10));
        assert(decimal(b).drop_last() =~= decimal(b / 10));
        decimal_tells_numbers_apart(a / 10, b / 10);
    }
}

proof fn hex_tells_bytes_apart(a: u8, b: u8)
    requires
        hex_byte(a as nat) == hex_byte(b as nat),
    ensures
        a == b,
{
    assert(hex_byte(a as nat)[0] == hex_digit(a as nat / 16));
    assert(hex_byte(b as nat)[0] == hex_digit(b as nat / 16));
    assert(hex_byte(a as nat)[1] == hex_digit(a as nat % 16));
    assert(hex_byte(b as nat)[1] == hex_digit(b as nat % 16));
}

/// The colour grammar loses nothing: different colours are written
/// differently.
pub proof fn colors_are_told_apart(a: SpanColor, b: SpanColor)
    requires
        color_text(a) == color_text(b),
    ensures
        a == b,
{
    reveal_strlit("default");
    assert("default"@[0] == 'd');
    match (a, b) {
        (SpanColor::Rgb((r, g, bl)), SpanColor::Rgb((r2, g2, bl2))) => {
            let s = color_text(a);
            let t = color_text(b);
            assert(s.subrange(1, 3) =~= hex_byte(r as nat));
            assert(t.subrange(1, 3) =~= hex_byte(r2 as nat));
            assert(s.subrange(3, 5) =~= hex_byte(g as nat));
            assert(t.subrange(3, 5) =~= hex_byte(g2 as nat));
            assert(s.subrange(5, 7) =~= hex_byte(bl as nat));
            assert(t.subrange(5, 7) =~= hex_byte(bl2 as nat));
            hex_tells_bytes_apart(r, r2);
            hex_tells_bytes_apart(g, g2);
            hex_tells_bytes_apart(bl, bl2);
        },
        (SpanColor::Ansi(i), SpanColor::Ansi(j)) => {
            decimal_tells_numbers_apart(i as nat, j as nat);
        },
        (SpanColor::Ansi(i), _) => {
            decimal_is_digits(i as nat);
            assert('0' <= color_text(a)[0] <= '9');
            assert(b is Rgb ==> color_text(b)[0] == '#');
        },
        (_, SpanColor::Ansi(j)) => {
            decimal_is_digits(j as nat);
            assert('0' <= color_text(b)[0] <= '9');
            assert(a is Rgb ==> color_text(a)[0] == '#');
        },
        _ => {
            assert(a is Rgb ==> color_text(a)[0] == '#');
            assert(b is Rgb ==> color_text(b)[0] == '#');
        },
    }
}

} // verus!
