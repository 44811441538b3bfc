//! Projection of transcript messages into the structured blocks a renderer
//! receives: content plus metadata, never default-rendered lines.

use crate::body::{body_tree, code_line_count, tool_body_projection, visible_lines};
use crate::code::{
    budget_hides, code_projection, code_tree, input_lines, instruction_list, instruction_trees,
};
use crate::diff::{diff_projection, diff_tree, DiffHunk};
use crate::grep::{grep_projection, grep_tree, GrepPlan};
use crate::header::{lines_trees, snapshot_lines_json, tokens_fit};
use crate::host::{Host, InstructionsPlan};
use crate::json::{
    fields, flag, json_tree, list, no_fields, null, number, object, opt_text, opt_text_json, put,
    put_text, text, trees, trees_push, with_text, Json,
};
use crate::message::{
    authority_name, body_authority, kind, kind_name, phase, phase_name, DisplayMessage, DisplayRole,
    ImageSource, InstructionBlock, SectionFlags, ToolInput, ToolOutput,
};
use crate::snapshot::{SnapshotLine, SpanStyle};
use serde_json::Value;
use vstd::prelude::*;
use vstd::utf8::encode_utf8;

verus! {

/// What the host answers about a tool message.
pub struct Answers {
    /// Whether the host truncates what the budget hides of each code section.
    pub cuts: SectionFlags,
    /// The spinner each span of the header snapshot stands for.
    pub tokens: Vec<Vec<Option<String>>>,
    /// The hunks of a diff.
    pub hunks: Vec<DiffHunk>,
    /// The layout of a grep result.
    pub plan: GrepPlan,
}

/// The answers speak of every span of the message's header snapshot.
pub open spec fn answers_fit(message: DisplayMessage, answers: Answers) -> bool {
    message.render_header matches Some(snapshot) ==> tokens_fit(
        snapshot.lines@,
        answers.tokens@,
    )
}

/// Where the line that starts at `i` ends.
pub open spec fn line_end(s: Seq<char>, i: int) -> int
    decreases s.len() - i,
{
    if 0 <= i < s.len() && s[i] != '\n' {
        line_end(s, i + 1)
    } else {
        i
    }
}

/// The first line of a text.
pub open spec fn first_line(s: Seq<char>) -> Seq<char> {
    s.take(line_end(s, 0))
}

proof fn line_end_bounds(s: Seq<char>, i: int)
    requires
        0 <= i <= s.len(),
    ensures
        i <= line_end(s, i) <= s.len(),
        forall|k: int| i <= k < line_end(s, i) ==> s[k] != '\n',
        line_end(s, i) < s.len() ==> s[line_end(s, i)] == '\n',
    decreases s.len() - i,
{
    if i < s.len() && s[i] != '\n' {
        line_end_bounds(s, i + 1);
    }
}

/// The first line of a text.
fn head_line(source: &str) -> (line: String)
    ensures
        line@ == first_line(source@),
{
    let mut line = String::new();
    let mut ended = false;
    let ghost end = line_end(source@, 0);
    proof {
        line_end_bounds(source@, 0);
    }
    assert(line@ =~= source@.take(0));
    for ch in it: source.chars()
        invariant
            it.seq() == source@,
            it.index() <= source@.len(),
            end == line_end(source@, 0),
            0 <= end <= source@.len(),
            forall|k: int| 0 <= k < end ==> source@[k] != '\n',
            end < source@.len() ==> source@[end] == '\n',
            ended == (it.index() > end),
            ended ==> line@ == source@.take(end),
            !ended ==> line@ == source@.take(it.index() as int),
    {
        if !ended {
            if ch == '\n' {
                ended = true;
            } else {
                line.push(ch);
                assert(source@.take(it.index() + 1) =~= source@.take(it.index() as int).push(ch));
            }
        }
    }
    line
}

/// The descriptor of an image: its type and how large it is, never its
/// payload.
pub open spec fn image_tree(media_type: Seq<char>, bytes: nat) -> Json {
    Json::Obj(
        no_fields().insert("media_type"@, Json::Str(media_type)).insert("bytes"@, Json::Num(bytes)),
    )
}

/// The descriptors of the images, in order.
pub open spec fn image_trees(images: Seq<ImageSource>) -> Seq<Json> {
    images.map_values(
        |image: ImageSource|
            image_tree(image.media_type@, encode_utf8((*image.data)@).len()),
    )
}

/// The descriptors of the images: the encoded payload never reaches a
/// renderer.
fn image_list(images: &Vec<ImageSource>) -> (value: Value)
    ensures
        json_tree(value) == Json::Arr(image_trees(images@)),
{
    let ghost all = image_trees(images@);
    let mut made: Vec<Value> = Vec::new();
    let mut i: usize = 0;
    assert(trees(made@) =~= all.take(0));
    while i < images.len()
        invariant
            all == image_trees(images@),
            i <= images@.len(),
            trees(made@) == all.take(i as int),
        decreases images@.len() - i,
    {
        let ghost before = made@;
        let mut image = fields();
        put(&mut image, "media_type", text(images[i].media_type.as_str()));
        put(&mut image, "bytes", number((&*images[i].data).as_bytes().len()));
        let value = object(image);
        made.push(value);
        proof {
            trees_push(before, value);
            assert(all.take(i + 1) =~= all.take(i as int).push(all[i as int]));
        }
        i += 1;
    }
    assert(all.take(i as int) =~= all);
    list(made)
}

/// The header of a tool block: the lines a plugin rendered, or the first line
/// of the message with its annotation.
pub open spec fn header_tree(message: DisplayMessage, answers: Answers) -> Json {
    match message.render_header {
        Some(snapshot) => Json::Obj(
            no_fields().insert("kind"@, Json::Str("snapshot"@)).insert(
                "lines"@,
                Json::Arr(lines_trees(snapshot.lines@, answers.tokens@)),
            ),
        ),
        None => Json::Obj(
            with_text(
                no_fields().insert("kind"@, Json::Str("text"@)).insert(
                    "text"@,
                    Json::Str(first_line(message.text@)),
                ),
                "annotation"@,
                message.annotation,
            ),
        ),
    }
}

fn header_json(message: &DisplayMessage, answers: &Answers) -> (value: Value)
    requires
        answers_fit(*message, *answers),
    ensures
        json_tree(value) == header_tree(*message, *answers),
{
    let mut header = fields();
    match &message.render_header {
        Some(snapshot) => {
            put(&mut header, "kind", text("snapshot"));
            put(&mut header, "lines", snapshot_lines_json(&snapshot.lines, &answers.tokens));
        },
        None => {
            put(&mut header, "kind", text("text"));
            put(&mut header, "text", text(head_line(message.text.as_str()).as_str()));
            put_text(&mut header, "annotation", &message.annotation);
        },
    }
    object(header)
}

/// The fields with one more where the tree is there.
pub open spec fn with_tree(
    block: Map<Seq<char>, Json>,
    key: Seq<char>,
    tree: Option<Json>,
) -> Map<Seq<char>, Json> {
    match tree {
        Some(tree) => block.insert(key, tree),
        None => block,
    }
}

/// The `tool` object: identity, lifecycle, header, and whatever sections the
/// message has.
pub open spec fn tool_tree(
    message: DisplayMessage,
    name: Seq<char>,
    limit: nat,
    expanded: SectionFlags,
    answers: Answers,
) -> Json {
    let tool = no_fields().insert("name"@, Json::Str(name)).insert(
        "status"@,
        Json::Str(phase_name(message.role)),
    );
    let tool = with_text(tool, "usage"@, message.turn_usage);
    let tool = with_text(tool, "timestamp"@, message.timestamp);
    let tool = tool.insert("header"@, header_tree(message, answers)).insert(
        "body_authority"@,
        Json::Str(authority_name(message)),
    );
    let tool = with_tree(tool, "code"@, code_tree(message, limit, expanded, answers.cuts));
    let tool = match message.tool_output {
        Some(output) => {
            let tool = with_tree(tool, "body"@, body_tree(*output, limit, expanded.output));
            match *output {
                ToolOutput::Diff { path, before, after, summary } => tool.insert(
                    "diff"@,
                    diff_tree(path@, before@, after@, summary@, answers.hunks@),
                ),
                ToolOutput::GrepResult { entries } => tool.insert(
                    "grep"@,
                    grep_tree(entries@, limit, expanded.output, answers.plan),
                ),
                _ => tool,
            }
        },
        None => tool,
    };
    Json::Obj(tool)
}

/// The structured `tool` object: identity, lifecycle, and the header content
/// a renderer needs, never a pre-rendered string.
pub fn tool_block(
    message: &DisplayMessage,
    name: &str,
    output_limit: usize,
    expanded: SectionFlags,
    answers: &Answers,
) -> (value: Value)
    requires
        answers_fit(*message, *answers),
    ensures
        json_tree(value) == tool_tree(
            *message,
            name@,
            output_limit as nat,
            expanded,
            *answers,
        ),
{
    let mut tool = fields();
    put(&mut tool, "name", text(name));
    put(&mut tool, "status", text(phase(&message.role)));
    put_text(&mut tool, "usage", &message.turn_usage);
    put_text(&mut tool, "timestamp", &message.timestamp);
    put(&mut tool, "header", header_json(message, answers));
    put(&mut tool, "body_authority", text(body_authority(message)));
    if let Some(code) = code_projection(message, output_limit, expanded, answers.cuts) {
        put(&mut tool, "code", code);
    }
    if let Some(output) = &message.tool_output {
        if let Some(body) = tool_body_projection(&**output, output_limit, expanded.output) {
            put(&mut tool, "body", body);
        }
        match &**output {
            ToolOutput::Diff { path, before, after, summary } => {
                let diff = diff_projection(
                    path.as_str(),
                    before.as_str(),
                    after.as_str(),
                    summary.as_str(),
                    &answers.hunks,
                );
                put(&mut tool, "diff", diff);
            },
            ToolOutput::GrepResult { entries } => {
                let grep = grep_projection(entries, output_limit, expanded.output, answers.plan);
                put(&mut tool, "grep", grep);
            },
            _ => {},
        }
    }
    object(tool)
}

/// A message as a block: its content, its metadata as far as it has any, and
/// the `tool` object of a tool message.
pub open spec fn block_tree(
    message: DisplayMessage,
    limit: nat,
    expanded: SectionFlags,
    answers: Answers,
) -> Json {
    let block = no_fields().insert("kind"@, Json::Str(kind_name(message.role))).insert(
        "text"@,
        Json::Str(message.text@),
    ).insert("phase"@, Json::Str(phase_name(message.role))).insert(
        "images"@,
        Json::Arr(image_trees(message.images@)),
    ).insert("thinking_collapsed"@, Json::Bool(message.thinking_collapsed));
    let block = with_text(block, "annotation"@, message.annotation);
    let block = with_text(block, "timestamp"@, message.timestamp);
    let block = with_text(block, "turn_usage"@, message.turn_usage);
    let block = with_text(block, "plan_path"@, message.plan_path);
    Json::Obj(
        match message.role {
            DisplayRole::Tool(tool) => block.insert(
                "tool"@,
                tool_tree(message, (*tool.name)@, limit, expanded, answers),
            ),
            _ => block,
        },
    )
}

/// A message as a block, once the host has answered.
pub fn project_answered(
    message: &DisplayMessage,
    output_limit: usize,
    expanded: SectionFlags,
    answers: &Answers,
) -> (value: Value)
    requires
        message.role is Tool ==> answers_fit(*message, *answers),
    ensures
        json_tree(value) == block_tree(*message, output_limit as nat, expanded, *answers),
{
    let mut block = fields();
    put(&mut block, "kind", text(kind(&message.role)));
    put(&mut block, "text", text(message.text.as_str()));
    put(&mut block, "phase", text(phase(&message.role)));
    put(&mut block, "images", image_list(&message.images));
    put(&mut block, "thinking_collapsed", flag(message.thinking_collapsed));
    put_text(&mut block, "annotation", &message.annotation);
    put_text(&mut block, "timestamp", &message.timestamp);
    put_text(&mut block, "turn_usage", &message.turn_usage);
    put_text(&mut block, "plan_path", &message.plan_path);
    if let DisplayRole::Tool(tool) = &message.role {
        put(
            &mut block,
            "tool",
            tool_block(message, &*tool.name, output_limit, expanded, answers),
        );
    }
    object(block)
}

/// The host named the spinner of every span with a named style.
pub open spec fn tokens_answered<H: Host>(
    host: &H,
    lines: Seq<SnapshotLine>,
    tokens: Seq<Vec<Option<String>>>,
) -> bool {
    &&& tokens_fit(lines, tokens)
    &&& forall|i: int, j: int|
        0 <= i < lines.len() && 0 <= j < lines[i].spans@.len() ==> (
        lines[i].spans@[j].style matches SpanStyle::Named(name) ==> call_ensures(
            H::spinner_token,
            (host, &name),
            #[trigger] tokens[i]@[j],
        ))
}

/// The row budget the host lays a grep result or an instruction segment out
/// under: none when it is expanded.
pub open spec fn effective(limit: usize, expanded: bool) -> usize {
    if expanded {
        usize::MAX
    } else {
        limit
    }
}

/// The answers are the host's own, each to the question the projection of a
/// tool message asks.
pub open spec fn answered<H: Host>(
    host: &H,
    message: &DisplayMessage,
    limit: usize,
    expanded: SectionFlags,
    answers: Answers,
) -> bool {
    message.role is Tool ==> {
        &&& message.render_header matches Some(snapshot) ==> tokens_answered(
            host,
            snapshot.lines@,
            answers.tokens@,
        )
        &&& message.tool_input matches Some(input) ==> call_ensures(
            H::should_truncate,
            (host, budget_hides(input_lines(*input), limit as nat, expanded.script) as usize),
            answers.cuts.script,
        )
        &&& message.tool_output matches Some(output) ==> match *output {
            ToolOutput::ReadCode { lines, .. } => call_ensures(
                H::should_truncate,
                (host, budget_hides(lines@.len(), limit as nat, expanded.output) as usize),
                answers.cuts.output,
            ),
            ToolOutput::Diff { before, after, .. } => call_ensures(
                H::compute_hunks,
                (host, &before, &after),
                answers.hunks,
            ),
            ToolOutput::GrepResult { entries } => call_ensures(
                H::plan_grep_layout,
                (host, &entries, effective(limit, expanded.output)),
                answers.plan,
            ),
            _ => true,
        }
    }
}

fn ask_line<H: Host>(line: &SnapshotLine, host: &H) -> (tokens: Vec<Option<String>>)
    ensures
        tokens@.len() == line.spans@.len(),
        forall|j: int|
            0 <= j < line.spans@.len() ==> (line.spans@[j].style matches SpanStyle::Named(name)
                ==> call_ensures(H::spinner_token, (host, &name), #[trigger] tokens@[j])),
{
    let mut tokens: Vec<Option<String>> = Vec::new();
    let mut j: usize = 0;
    while j < line.spans.len()
        invariant
            j <= line.spans@.len(),
            tokens@.len() == j,
            forall|k: int|
                0 <= k < j ==> (line.spans@[k].style matches SpanStyle::Named(name)
                    ==> call_ensures(H::spinner_token, (host, &name), #[trigger] tokens@[k])),
        decreases line.spans@.len() - j,
    {
        let token = match &line.spans[j].style {
            SpanStyle::Named(name) => host.spinner_token(name),
            _ => None,
        };
        tokens.push(token);
        j += 1;
    }
    tokens
}

fn ask_lines<H: Host>(lines: &Vec<SnapshotLine>, host: &H) -> (tokens: Vec<Vec<Option<String>>>)
    ensures
        tokens_answered(host, lines@, tokens@),
{
    let mut tokens: Vec<Vec<Option<String>>> = Vec::new();
    let mut i: usize = 0;
    while i < lines.len()
        invariant
            i <= lines@.len(),
            tokens@.len() == i,
            tokens_answered(host, lines@.take(i as int), tokens@),
        decreases lines@.len() - i,
    {
        let ghost before = tokens@;
        tokens.push(ask_line(&lines[i], host));
        proof {
            let done = lines@.take(i as int);
            let more = lines@.take(i + 1);
            assert forall|a: int| 0 <= a < more.len() implies (#[trigger] tokens@[a])@.len()
                == more[a].spans@.len() by {
                if a < i {
                    assert(tokens@[a] == before[a]);
                    assert(more[a] == done[a]);
                }
            }
            assert forall|a: int, b: int|
                0 <= a < more.len() && 0 <= b < more[a].spans@.len() implies (
            more[a].spans@[b].style matches SpanStyle::Named(name) ==> call_ensures(
                H::spinner_token,
                (host, &name),
                #[trigger] tokens@[a]@[b],
            )) by {
                if a < i {
                    assert(tokens@[a] == before[a]);
                    assert(more[a] == done[a]);
                }
            }
        }
        i += 1;
    }
    assert(lines@.take(i as int) =~= lines@);
    tokens
}

/// Asks the host everything the projection of a tool message depends on.
pub fn consult<H: Host>(
    message: &DisplayMessage,
    output_limit: usize,
    expanded: SectionFlags,
    host: &H,
) -> (answers: Answers)
    ensures
        answered(host, message, output_limit, expanded, answers),
        answers_fit(*message, answers),
{
    let tokens = match &message.render_header {
        Some(snapshot) => ask_lines(&snapshot.lines, host),
        None => Vec::new(),
    };
    let script = match &message.tool_input {
        Some(input) => {
            let total = match &**input {
                ToolInput::Code { language: _, code } => code_line_count(code.as_str()),
                ToolInput::Script { language: _, code } => code_line_count(code.as_str()),
            };
            host.should_truncate(total - visible_lines(total, output_limit, expanded.script))
        },
        None => false,
    };
    let mut answers = no_answers();
    answers.cuts = SectionFlags { script, output: false };
    answers.tokens = tokens;
    if let Some(output) = &message.tool_output {
        match &**output {
            ToolOutput::ReadCode { lines, .. } => {
                let total = lines.len();
                let hidden = total - visible_lines(total, output_limit, expanded.output);
                answers.cuts = SectionFlags { script, output: host.should_truncate(hidden) };
            },
            ToolOutput::Diff { before, after, .. } => {
                answers.hunks = host.compute_hunks(before, after);
            },
            ToolOutput::GrepResult { entries } => {
                let budget = if expanded.output {
                    usize::MAX
                } else {
                    output_limit
                };
                answers.plan = host.plan_grep_layout(entries, budget);
            },
            _ => {},
        }
    }
    answers
}

/// The answers to no question: nothing is truncated, no span is a spinner, and
/// there is nothing to lay out.
fn no_answers() -> (answers: Answers)
    ensures
        answers.cuts == (SectionFlags { script: false, output: false }),
        answers.tokens@.len() == 0,
        answers.hunks@.len() == 0,
        answers.plan == (GrepPlan {
            rows: 0,
            total_rows: 0,
            truncated: false,
            hidden_matches: 0,
        }),
{
    Answers {
        cuts: SectionFlags { script: false, output: false },
        tokens: Vec::new(),
        hunks: Vec::new(),
        plan: GrepPlan { rows: 0, total_rows: 0, truncated: false, hidden_matches: 0 },
    }
}

/// A message as a block with its tool sections expanded or not, one by one.
pub fn project_with_tool_sections<H: Host>(
    message: &DisplayMessage,
    output_limit: usize,
    expanded: SectionFlags,
    host: &H,
) -> (value: Value)
    ensures
        exists|answers: Answers| #[trigger]
            answered(host, message, output_limit, expanded, answers) && json_tree(value)
                == block_tree(*message, output_limit as nat, expanded, answers),
{
    let tool = match &message.role {
        DisplayRole::Tool(_) => true,
        _ => false,
    };
    let answers = if tool {
        consult(message, output_limit, expanded, host)
    } else {
        no_answers()
    };
    assert(answered(host, message, output_limit, expanded, answers));
    project_answered(message, output_limit, expanded, &answers)
}

/// A message as a block with all its tool sections expanded or none.
pub fn project_with_tool_display<H: Host>(
    message: &DisplayMessage,
    output_limit: usize,
    output_expanded: bool,
    host: &H,
) -> (value: Value)
    ensures
        ({
            let expanded = SectionFlags { script: output_expanded, output: output_expanded };
            exists|answers: Answers| #[trigger]
                answered(host, message, output_limit, expanded, answers) && json_tree(value)
                    == block_tree(*message, output_limit as nat, expanded, answers)
        }),
{
    project_with_tool_sections(
        message,
        output_limit,
        SectionFlags { script: output_expanded, output: output_expanded },
        host,
    )
}

/// A message as a block with no row budget.
pub fn project<H: Host>(message: &DisplayMessage, host: &H) -> (value: Value)
    ensures
        ({
            let expanded = SectionFlags { script: false, output: false };
            exists|answers: Answers| #[trigger]
                answered(host, message, 0, expanded, answers) && json_tree(value) == block_tree(
                    *message,
                    0,
                    expanded,
                    answers,
                )
        }),
{
    project_with_tool_display(message, 0, false, host)
}

/// What the host answers about an instruction segment.
pub struct InstructionsAnswers {
    /// The layout under the segment's budget.
    pub plan: InstructionsPlan,
    /// Rows there would be without a budget.
    pub total: usize,
    /// The header text.
    pub text: String,
    /// The header's annotation.
    pub annotation: Option<String>,
}

/// What a truncated layout hides can be counted.
pub open spec fn countable(answers: InstructionsAnswers) -> bool {
    answers.plan.truncated ==> answers.plan.rows <= answers.total
}

/// An instruction segment as a block of its own kind: its header, its files,
/// and how much of it is drawn. It has no `tool` object and no body
/// authority.
pub open spec fn instructions_tree(
    id: Seq<char>,
    parent_id: Seq<char>,
    blocks: Seq<InstructionBlock>,
    limit: nat,
    expanded: bool,
    answers: InstructionsAnswers,
) -> Json {
    let header = Json::Obj(
        no_fields().insert("name"@, Json::Str("load"@)).insert(
            "text"@,
            Json::Str(answers.text@),
        ).insert("annotation"@, opt_text_json(answers.annotation)),
    );
    let counts = Json::Obj(
        no_fields().insert("configured"@, Json::Num(limit)).insert(
            "visible_lines"@,
            Json::Num(answers.plan.rows as nat),
        ).insert("total_lines"@, Json::Num(answers.total as nat)),
    );
    let truncation = if answers.plan.truncated {
        Json::Obj(
            no_fields().insert(
                "hidden_lines"@,
                Json::Num((answers.total - answers.plan.rows) as nat),
            ),
        )
    } else {
        Json::Null
    };
    let display = Json::Obj(
        no_fields().insert("expanded"@, Json::Bool(expanded)).insert("limit"@, counts).insert(
            "truncation"@,
            truncation,
        ),
    );
    Json::Obj(
        no_fields().insert("kind"@, Json::Str("instructions"@)).insert(
            "id"@,
            Json::Str(id),
        ).insert("parent_id"@, Json::Str(parent_id)).insert(
            "phase"@,
            Json::Str("complete"@),
        ).insert("header"@, header).insert(
            "blocks"@,
            Json::Arr(instruction_trees(blocks)),
        ).insert("display"@, display),
    )
}

/// An instruction segment as a block, once the host has answered.
pub fn instructions_block(
    id: &str,
    parent_id: &str,
    blocks: &Vec<InstructionBlock>,
    limit: usize,
    expanded: bool,
    answers: &InstructionsAnswers,
) -> (value: Value)
    requires
        countable(*answers),
    ensures
        json_tree(value) == instructions_tree(
            id@,
            parent_id@,
            blocks@,
            limit as nat,
            expanded,
            *answers,
        ),
{
    let mut header = fields();
    put(&mut header, "name", text("load"));
    put(&mut header, "text", text(answers.text.as_str()));
    put(&mut header, "annotation", opt_text(&answers.annotation));
    let mut counts = fields();
    put(&mut counts, "configured", number(limit));
    put(&mut counts, "visible_lines", number(answers.plan.rows));
    put(&mut counts, "total_lines", number(answers.total));
    let truncation = if answers.plan.truncated {
        let mut hidden = fields();
        put(&mut hidden, "hidden_lines", number(answers.total - answers.plan.rows));
        object(hidden)
    } else {
        null()
    };
    let mut display = fields();
    put(&mut display, "expanded", flag(expanded));
    put(&mut display, "limit", object(counts));
    put(&mut display, "truncation", truncation);
    let mut block = fields();
    put(&mut block, "kind", text("instructions"));
    put(&mut block, "id", text(id));
    put(&mut block, "parent_id", text(parent_id));
    put(&mut block, "phase", text("complete"));
    put(&mut block, "header", object(header));
    put(&mut block, "blocks", instruction_list(blocks));
    put(&mut block, "display", object(display));
    object(block)
}

/// The answers are the host's own: the layout under the budget, the layout
/// without one, and the header. An expanded segment has no budget, so its two
/// layouts are one.
pub open spec fn instructions_answered<H: Host>(
    host: &H,
    blocks: &Vec<InstructionBlock>,
    limit: usize,
    expanded: bool,
    answers: InstructionsAnswers,
) -> bool {
    &&& call_ensures(
        H::plan_instructions_layout,
        (host, blocks, effective(limit, expanded)),
        answers.plan,
    )
    &&& exists|full: InstructionsPlan| #[trigger]
        call_ensures(H::plan_instructions_layout, (host, blocks, usize::MAX), full)
            && full.rows == answers.total && (expanded ==> full == answers.plan)
    &&& call_ensures(H::instructions_header, (host, blocks), (answers.text, answers.annotation))
}

/// The block for an instruction segment. Instructions are their own
/// transcript element with their own header and expand state, so they are not
/// a tool block and carry no tool body authority. An expanded segment shows all
/// its lines. `None` when the host calls a collapsed layout truncated that
/// draws more rows than there are.
pub fn project_instructions<H: Host>(
    id: &str,
    parent_id: &str,
    blocks: &Vec<InstructionBlock>,
    limit: usize,
    expanded: bool,
    host: &H,
) -> (value: Option<Value>)
    ensures
        exists|answers: InstructionsAnswers| #[trigger]
            instructions_answered(host, blocks, limit, expanded, answers) && match value {
                Some(value) => countable(answers) && json_tree(value) == instructions_tree(
                    id@,
                    parent_id@,
                    blocks@,
                    limit as nat,
                    expanded,
                    answers,
                ),
                None => !countable(answers),
            } && (expanded ==> value is Some && answers.plan.rows == answers.total),
{
    let full = host.plan_instructions_layout(blocks, usize::MAX);
    let plan = if expanded {
        full
    } else {
        host.plan_instructions_layout(blocks, limit)
    };
    let (title, annotation) = host.instructions_header(blocks);
    let answers = InstructionsAnswers { plan, total: full.rows, text: title, annotation };
    assert(instructions_answered(host, blocks, limit, expanded, answers));
    if plan.truncated && plan.rows > full.rows {
        return None;
    }
    Some(instructions_block(id, parent_id, blocks, limit, expanded, &answers))
}

} // verus!
