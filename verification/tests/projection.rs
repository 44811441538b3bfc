use maki_transcript::body::{body_display, logical_line_count, tool_body_projection, visible_lines};
use maki_transcript::code::{code_lines_shown, visible_code_lines};
use maki_transcript::diff::{diff_projection, emphasis_ranges, DiffHunk, DiffLine, DiffSpan};
use maki_transcript::grep::{grep_projection, valid_match_ranges, GrepPlan};
use maki_transcript::header::{inline_json, snapshot_line_json, span_color_json};
use maki_transcript::host::{Host, InstructionsPlan};
use maki_transcript::message::{
    kind, renderable, BufferSnapshot, ByteRange, DisplayMessage, DisplayRole, GrepFileEntry,
    GrepLine, GrepMatchGroup, ImageSource, InstructionBlock, SectionFlags, TextOutput, TodoItem,
    TodoPriority, TodoStatus, ToolInput, ToolOutput, ToolRole, ToolStatus,
};
use maki_transcript::owner::{instructions_body_owner, tool_body_owner, BodyOwner};
use maki_transcript::project::{
    project, project_instructions, project_with_tool_display, project_with_tool_sections,
};
use maki_transcript::snapshot::{InlineStyle, SnapshotLine, SnapshotSpan, SpanColor, SpanStyle};
use serde_json::Value;
use std::sync::Arc;

const PHASE_COMPLETE: &str = "complete";
const PHASE_IN_PROGRESS: &str = "in_progress";
const PHASE_SUCCESS: &str = "success";
const PHASE_ERROR: &str = "error";
const PNG_PAYLOAD: &str = "base64-payload-that-must-not-leak";
const PNG_MIME: &str = "image/png";
const IMAGE_PLACEHOLDER: &str = "[image]";
const NO_FILES_FOUND: &str = "No files found";

/// A host that truncates whatever is hidden, counts a row per grep line and
/// instruction block, and names `spinner:` styles as spinners.
struct TestHost;

fn grep_plan(entries: &[GrepFileEntry], limit: usize) -> GrepPlan {
    let total: usize = entries
        .iter()
        .flat_map(|entry| entry.groups.iter())
        .map(|group| group.lines.len())
        .sum();
    let rows = total.min(limit);
    GrepPlan {
        rows,
        total_rows: total,
        truncated: rows < total,
        hidden_matches: total - rows,
    }
}

fn source_lines(text: &str) -> Vec<&str> {
    text.lines().collect()
}

/// One hunk from the first line that differs to the last.
fn hunks(before: &str, after: &str) -> Vec<DiffHunk> {
    let (old, new) = (source_lines(before), source_lines(after));
    let mut head = 0;
    while head < old.len() && head < new.len() && old[head] == new[head] {
        head += 1;
    }
    let mut tail = 0;
    while tail < old.len() - head
        && tail < new.len() - head
        && old[old.len() - 1 - tail] == new[new.len() - 1 - tail]
    {
        tail += 1;
    }
    let span = |text: &str| {
        vec![DiffSpan {
            text: text.to_owned(),
            emphasized: true,
        }]
    };
    let mut lines: Vec<DiffLine> = Vec::new();
    for line in &old[head..old.len() - tail] {
        lines.push(DiffLine::Removed(span(line)));
    }
    for line in &new[head..new.len() - tail] {
        lines.push(DiffLine::Added(span(line)));
    }
    vec![DiffHunk::new(head + 1, head + 1, lines).expect("countable hunk")]
}

impl Host for TestHost {
    fn should_truncate(&self, hidden: usize) -> bool {
        hidden > 0
    }

    fn spinner_token(&self, name: &String) -> Option<String> {
        name.strip_prefix("spinner:").map(str::to_owned)
    }

    fn plan_grep_layout(&self, entries: &Vec<GrepFileEntry>, limit: usize) -> GrepPlan {
        grep_plan(entries, limit)
    }

    fn compute_hunks(&self, before: &String, after: &String) -> Vec<DiffHunk> {
        hunks(before, after)
    }

    fn plan_instructions_layout(
        &self,
        blocks: &Vec<InstructionBlock>,
        limit: usize,
    ) -> InstructionsPlan {
        let rows = blocks.len().min(limit);
        InstructionsPlan {
            rows,
            truncated: rows < blocks.len(),
        }
    }

    fn instructions_header(&self, blocks: &Vec<InstructionBlock>) -> (String, Option<String>) {
        let first = blocks.first().map(|b| b.path.clone()).unwrap_or_default();
        let more = (blocks.len() > 1).then_some(format!("+{}", blocks.len().saturating_sub(1)));
        (first, more)
    }

    fn instruction_limit(&self, expanded: bool) -> usize {
        if expanded {
            2
        } else {
            0
        }
    }
}

fn tool(status: ToolStatus, name: &str, text: &str) -> DisplayMessage {
    DisplayMessage::new(
        DisplayRole::Tool(Box::new(ToolRole {
            id: "t".to_owned(),
            status,
            name: Arc::from(name),
        })),
        text.to_owned(),
    )
}

fn plain(text: &str) -> TextOutput {
    TextOutput {
        text: text.to_owned(),
    }
}

fn snapshot(text: &str) -> BufferSnapshot {
    BufferSnapshot {
        lines: vec![SnapshotLine::plain(text.to_owned())],
    }
}

fn png() -> ImageSource {
    ImageSource {
        media_type: PNG_MIME.to_owned(),
        data: Arc::from(PNG_PAYLOAD),
    }
}

fn numbers(values: &Value, key: &str) -> u64 {
    values[key].as_u64().expect("number")
}

#[test]
fn project_carries_kind_text_and_present_metadata() {
    let mut message = DisplayMessage::new(DisplayRole::User, "hi".to_owned());
    message.timestamp = Some("12:00".to_owned());
    let block = project(&message, &TestHost);
    assert_eq!(block["kind"], "user");
    assert_eq!(block["text"], "hi");
    assert_eq!(block["phase"], PHASE_COMPLETE);
    assert_eq!(block["timestamp"], "12:00");
    assert_eq!(block["thinking_collapsed"], false);
    assert_eq!(block["images"], Value::Array(Vec::new()));
    assert!(block.get("annotation").is_none());
}

#[test]
fn project_lists_image_descriptors_without_the_payload() {
    let mut message = DisplayMessage::new(DisplayRole::User, IMAGE_PLACEHOLDER.to_owned());
    message.images = vec![png()];
    let block = project(&message, &TestHost);
    let images = block["images"].as_array().expect("images array");
    assert_eq!(images.len(), 1);
    assert_eq!(images[0]["media_type"], PNG_MIME);
    assert_eq!(images[0]["bytes"], PNG_PAYLOAD.len());
    assert!(!block.to_string().contains(PNG_PAYLOAD));
}

#[test]
fn body_authority_names_the_host_body_owner() {
    let mut message = tool(ToolStatus::Success, "bash", "bash> cmd");
    let authority = |message: &DisplayMessage| {
        project_with_tool_display(message, 0, false, &TestHost)["tool"]["body_authority"].clone()
    };
    assert_eq!(authority(&message), "none");
    message.live_output = Some("streaming".to_owned());
    assert_eq!(authority(&message), "live");
    message.render_snapshot = Some(snapshot("streamed"));
    assert_eq!(authority(&message), "snapshot");
}

#[test]
fn code_projection_normalizes_input_and_tracks_sections() {
    let mut message = tool(ToolStatus::Success, "read", "read> src/lib.rs");
    message.tool_input = Some(Arc::new(ToolInput::Script {
        language: "rust".to_owned(),
        code: "one\ntwo\nthree\nfour\n".to_owned(),
    }));
    message.tool_output = Some(Arc::new(ToolOutput::ReadCode {
        path: "src/lib.rs".to_owned(),
        start_line: 10,
        lines: vec!["four".to_owned(), "five".to_owned(), "six".to_owned()],
        total_lines: 20,
        instructions: None,
    }));
    let block = project_with_tool_sections(
        &message,
        2,
        SectionFlags {
            script: false,
            output: true,
        },
        &TestHost,
    );
    let code = &block["tool"]["code"];
    assert_eq!(code["input"]["language"], "rust");
    assert_eq!(code["input"]["code"], "one\ntwo\nthree\nfour\n");
    assert_eq!(code["input"]["display"]["truncation"]["tail_hidden"], 2);
    assert_eq!(code["output"]["kind"], "read_code");
    assert_eq!(code["output"]["path"], "src/lib.rs");
    assert_eq!(code["output"]["start_line"], 10);
    assert_eq!(code["output"]["display"]["truncation"], Value::Null);
}

#[test]
fn code_projection_omits_absent_output_section() {
    let mut message = tool(ToolStatus::Success, "bash", "bash> echo");
    message.tool_input = Some(Arc::new(ToolInput::Code {
        language: "bash".to_owned(),
        code: "echo ok".to_owned(),
    }));
    let block = project_with_tool_sections(&message, 20, SectionFlags::default(), &TestHost);
    let code = &block["tool"]["code"];
    assert!(code["input"].is_object());
    assert!(code["output"].is_null());
}

#[test]
fn code_projection_leaves_other_outputs_to_the_native_body() {
    let mut message = tool(ToolStatus::Success, "bash", "bash> echo");
    message.tool_input = Some(Arc::new(ToolInput::Code {
        language: "bash".to_owned(),
        code: "echo ok".to_owned(),
    }));
    message.tool_output = Some(Arc::new(ToolOutput::Other));
    let block = project_with_tool_sections(&message, 20, SectionFlags::default(), &TestHost);
    assert!(block["tool"].get("code").is_none());
    assert!(block["tool"].get("body").is_none());
}

#[test]
fn read_code_lists_its_lines_and_instructions() {
    let mut message = tool(ToolStatus::Success, "read", "read> a");
    message.tool_output = Some(Arc::new(ToolOutput::ReadCode {
        path: "a".to_owned(),
        start_line: 1,
        lines: vec!["x".to_owned(), "y".to_owned()],
        total_lines: 2,
        instructions: Some(vec![InstructionBlock {
            path: "AGENTS.md".to_owned(),
            content: "be kind".to_owned(),
        }]),
    }));
    let block = project(&message, &TestHost);
    let output = &block["tool"]["code"]["output"];
    assert!(block["tool"]["code"]["input"].is_null());
    assert_eq!(output["lines"][1], "y");
    assert_eq!(output["total_lines"], 2);
    assert_eq!(output["instructions"][0]["path"], "AGENTS.md");
    assert_eq!(output["instructions"][0]["content"], "be kind");
}

#[test]
fn todo_body_projection_uses_semantic_tokens() {
    let output = ToolOutput::TodoList(vec![TodoItem {
        content: "write tests".to_owned(),
        status: TodoStatus::Completed,
        priority: TodoPriority::High,
    }]);
    let body = tool_body_projection(&output, 0, true).expect("body");
    assert_eq!(body["items"][0]["status"], "completed");
    assert_eq!(body["items"][0]["marker"], "completed");
    assert_eq!(body["items"][0]["priority"], "high");
    assert!(body["items"][0].get("glyph").is_none());
}

#[test]
fn todo_names_cover_every_status_and_priority() {
    let item = |status, priority| TodoItem {
        content: String::new(),
        status,
        priority,
    };
    let output = ToolOutput::TodoList(vec![
        item(TodoStatus::Pending, TodoPriority::Medium),
        item(TodoStatus::InProgress, TodoPriority::Low),
        item(TodoStatus::Cancelled, TodoPriority::High),
    ]);
    let body = tool_body_projection(&output, 2, false).expect("body");
    assert_eq!(body["items"][0]["status"], "pending");
    assert_eq!(body["items"][0]["priority"], "medium");
    assert_eq!(body["items"][1]["marker"], "in_progress");
    assert_eq!(body["items"][1]["priority"], "low");
    assert_eq!(body["items"][2]["status"], "cancelled");
    assert_eq!(body["display"]["truncation"]["tail_hidden"], 1);
    assert!(body["empty"].is_null());
}

#[test]
fn todo_body_projection_has_semantic_empty_state() {
    let body = tool_body_projection(&ToolOutput::TodoList(Vec::new()), 0, true).expect("body");
    assert_eq!(body["empty"]["label"], "No todos.");
    assert_eq!(body["empty"]["group"], "todo.empty");
}

fn text_body(output: ToolOutput, text: &str, kind: &str) {
    let mut message = tool(ToolStatus::Success, "bash", "bash> cmd");
    message.tool_output = Some(Arc::new(output));
    let block = project_with_tool_display(&message, 2, false, &TestHost);
    let body = &block["tool"]["body"];
    assert_eq!(body["kind"], kind);
    assert_eq!(body["text"], text);
    assert_eq!(body["display"]["limit"]["configured"], 2);
    assert_eq!(body["display"]["limit"]["visible_lines"], 2);
    assert_eq!(body["display"]["truncation"]["tail_hidden"], 1);
    let expanded = project_with_tool_display(&message, 2, true, &TestHost);
    assert!(expanded["tool"]["body"]["display"]["truncation"].is_null());
}

#[test]
fn text_body_projection_keeps_source_and_display_state_plain() {
    text_body(
        ToolOutput::Plain(plain("one\ntwo\nthree")),
        "one\ntwo\nthree",
        "plain",
    );
}

#[test]
fn text_body_projection_keeps_source_and_display_state_markdown() {
    text_body(
        ToolOutput::Markdown(plain("one\ntwo\nthree")),
        "one\ntwo\nthree",
        "markdown",
    );
}

#[test]
fn text_body_projection_keeps_source_and_display_state_other_kinds() {
    text_body(ToolOutput::ReadDir(plain("a\nb\nc\n")), "a\nb\nc\n", "read_dir");
    text_body(
        ToolOutput::Batch {
            text: "a\nb\nc".to_owned(),
        },
        "a\nb\nc",
        "batch",
    );
}

#[test]
fn only_a_batch_body_is_legacy() {
    let batch = ToolOutput::Batch {
        text: "a".to_owned(),
    };
    let body = tool_body_projection(&batch, 0, false).expect("body");
    assert_eq!(body["legacy"], true);
    let body = tool_body_projection(&ToolOutput::Plain(plain("a")), 0, false).expect("body");
    assert!(body["legacy"].is_null());
}

#[test]
fn diff_projection_uses_unified_line_conventions() {
    let projection = diff_projection(
        "src/lib.rs",
        "old\n",
        "new\n",
        "changed",
        &hunks("old\n", "new\n"),
    );
    assert_eq!(projection["path"], "src/lib.rs");
    let hunk = &projection["hunks"][0];
    assert_eq!(projection["mode"], "edit");
    assert_eq!(hunk["old_start"], 1);
    assert_eq!(hunk["old_count"], 1);
    assert_eq!(hunk["new_start"], 1);
    assert_eq!(hunk["new_count"], 1);
    assert_eq!(hunk["lines"][0]["kind"], "remove");
    assert_eq!(hunk["lines"][0]["old_line"], 1);
    assert!(hunk["lines"][0].get("new_line").is_none());
    assert_eq!(hunk["lines"][1]["kind"], "add");
    assert_eq!(hunk["lines"][1]["new_line"], 1);
    assert!(hunk["lines"][1].get("old_line").is_none());
}

#[test]
fn diff_projection_carries_the_sources_the_highlighter_walks() {
    let before = "fn a() {\n    let x = 1;\n}\n\nfn b() {}\n";
    let after = "fn a() {\n    let x = 2;\n}\n\nfn b() {}\n";
    let projection = diff_projection(
        "src/lib.rs",
        before,
        after,
        "changed",
        &hunks(before, after),
    );

    assert_eq!(projection["sources"]["before"], before);
    assert_eq!(projection["sources"]["after"], after);
    assert!(projection.get("display").is_none());
}

#[test]
fn diff_projection_marks_empty_sides_and_missing_newline() {
    let new_file = diff_projection("new", "", "é", "created", &hunks("", "é"));
    let hunk = &new_file["hunks"][0];
    assert_eq!(new_file["mode"], "new");
    assert_eq!(hunk["old_start"], 0);
    assert_eq!(hunk["old_count"], 0);
    assert_eq!(hunk["new_start"], 1);
    assert_eq!(hunk["new_count"], 1);
    assert!(hunk["lines"][0]["no_newline_at_eof"]
        .as_bool()
        .expect("no newline flag"));
}

#[test]
fn diff_lines_are_numbered_on_the_sides_they_are_on() {
    let span = |text: &str, emphasized: bool| DiffSpan {
        text: text.to_owned(),
        emphasized,
    };
    let hunk = DiffHunk::new(
        4,
        7,
        vec![
            DiffLine::Unchanged("same".to_owned()),
            DiffLine::Removed(vec![span("dé", false), span("x", true), span("y", false)]),
            DiffLine::Added(vec![span("q", true)]),
            DiffLine::Unchanged("end".to_owned()),
        ],
    )
    .expect("countable");
    let diff = diff_projection("p", "a\n", "b\n", "s", &vec![hunk]);
    let hunk = &diff["hunks"][0];
    assert_eq!(numbers(hunk, "old_start"), 4);
    assert_eq!(numbers(hunk, "old_count"), 3);
    assert_eq!(numbers(hunk, "new_start"), 7);
    assert_eq!(numbers(hunk, "new_count"), 3);
    let lines = &hunk["lines"];
    assert_eq!(lines[0]["kind"], "context");
    assert_eq!(numbers(&lines[0], "old_line"), 4);
    assert_eq!(numbers(&lines[0], "new_line"), 7);
    assert!(lines[0].get("emphasis").is_none());
    assert_eq!(lines[1]["text"], "déxy");
    assert_eq!(numbers(&lines[1], "old_line"), 5);
    assert_eq!(lines[1]["emphasis"].as_array().expect("ranges").len(), 1);
    assert_eq!(numbers(&lines[1]["emphasis"][0], "start_byte"), 3);
    assert_eq!(numbers(&lines[1]["emphasis"][0], "end_byte"), 4);
    assert_eq!(lines[1]["emphasis"][0]["kind"], "changed");
    assert_eq!(numbers(&lines[2], "new_line"), 8);
    assert_eq!(numbers(&lines[3], "old_line"), 6);
    assert_eq!(numbers(&lines[3], "new_line"), 9);
    assert_eq!(lines[3]["no_newline_at_eof"], false);
}

#[test]
fn a_deleted_file_has_no_new_side() {
    let diff = diff_projection("gone", "a\nb\n", "", "deleted", &hunks("a\nb\n", ""));
    assert_eq!(diff["mode"], "delete");
    let hunk = &diff["hunks"][0];
    assert_eq!(hunk["new_start"], 0);
    assert_eq!(hunk["new_count"], 0);
    assert_eq!(hunk["old_count"], 2);
    assert_eq!(hunk["lines"][1]["no_newline_at_eof"], false);
}

#[test]
fn emphasis_ranges_can_be_sliced() {
    let spans = vec![
        DiffSpan {
            text: "é".to_owned(),
            emphasized: true,
        },
        DiffSpan {
            text: "ab".to_owned(),
            emphasized: false,
        },
        DiffSpan {
            text: "界".to_owned(),
            emphasized: true,
        },
    ];
    let text = "éab界";
    let ranges = emphasis_ranges(&spans);
    let slices: Vec<&str> = ranges
        .iter()
        .map(|range| {
            &text[numbers(range, "start_byte") as usize..numbers(range, "end_byte") as usize]
        })
        .collect();
    assert_eq!(slices, ["é", "界"]);
}

#[test]
fn a_hunk_that_cannot_be_numbered_is_no_hunk() {
    let line = || DiffLine::Unchanged(String::new());
    assert!(DiffHunk::new(usize::MAX, 1, vec![line()]).is_none());
    assert!(DiffHunk::new(1, usize::MAX, vec![line()]).is_none());
    assert!(DiffHunk::new(usize::MAX - 1, 1, vec![line()]).is_some());
}

#[test]
fn a_diff_message_projects_the_hosts_hunks() {
    let mut message = tool(ToolStatus::Success, "edit", "edit> a");
    message.tool_output = Some(Arc::new(ToolOutput::Diff {
        path: "a".to_owned(),
        before: "x\n".to_owned(),
        after: "y\n".to_owned(),
        summary: "changed".to_owned(),
    }));
    let block = project(&message, &TestHost);
    assert_eq!(block["tool"]["diff"]["summary"], "changed");
    assert_eq!(block["tool"]["diff"]["hunks"][0]["lines"][1]["text"], "y");
    assert!(block["tool"].get("grep").is_none());
}

fn grep_line(line_nr: usize, text: &str, ranges: Vec<ByteRange>) -> GrepLine {
    GrepLine {
        line_nr,
        text: text.to_owned(),
        is_match: true,
        match_ranges: ranges,
    }
}

fn entry(path: &str, lines: Vec<GrepLine>) -> GrepFileEntry {
    GrepFileEntry {
        path: path.to_owned(),
        groups: vec![GrepMatchGroup { lines }],
    }
}

#[test]
fn grep_projection_reports_the_native_budget() {
    let entries = vec![entry(
        "src/lib.rs",
        (1..=4)
            .map(|line_nr| grep_line(line_nr, &format!("line {line_nr}"), Vec::new()))
            .collect(),
    )];
    let expanded = grep_projection(&entries, 2, true, grep_plan(&entries, usize::MAX));
    assert_eq!(expanded["display"]["limit"]["visible_lines"], 4);
    assert_eq!(expanded["display"]["limit"]["total_lines"], 4);
    assert!(expanded["display"]["truncation"].is_null());

    let collapsed = grep_projection(&entries, 2, false, grep_plan(&entries, 2));
    assert_eq!(collapsed["display"]["limit"]["configured"], 2);
    assert_eq!(collapsed["display"]["limit"]["visible_lines"], 2);
    assert_eq!(collapsed["display"]["limit"]["total_lines"], 4);
    assert_eq!(collapsed["display"]["truncation"]["hidden_matches"], 2);
}

#[test]
fn a_grep_message_is_laid_out_under_its_budget() {
    let mut message = tool(ToolStatus::Success, "grep", "grep> line");
    message.tool_output = Some(Arc::new(ToolOutput::GrepResult {
        entries: vec![entry(
            "a",
            (1..=4).map(|n| grep_line(n, "line", Vec::new())).collect(),
        )],
    }));
    let collapsed = project_with_tool_display(&message, 2, false, &TestHost);
    assert_eq!(
        collapsed["tool"]["grep"]["display"]["truncation"]["hidden_matches"],
        2
    );
    let expanded = project_with_tool_display(&message, 2, true, &TestHost);
    assert!(expanded["tool"]["grep"]["display"]["truncation"].is_null());
    assert_eq!(
        expanded["tool"]["grep"]["display"]["limit"]["visible_lines"],
        4
    );
}

#[test]
fn grep_projection_has_a_semantic_empty_state() {
    let projection = grep_projection(&vec![], usize::MAX, true, grep_plan(&[], usize::MAX));
    assert_eq!(projection["empty"]["label"], NO_FILES_FOUND);
    assert_eq!(projection["empty"]["group"], "grep.empty");
    assert!(projection["display"]["truncation"].is_null());
}

#[test]
fn grep_projection_preserves_source_match_ranges() {
    let entries = vec![entry(
        "src/lib.rs",
        vec![grep_line(2, "héllo", vec![ByteRange { start: 1, end: 3 }])],
    )];
    let projection = grep_projection(&entries, usize::MAX, true, grep_plan(&entries, usize::MAX));
    let line = &projection["entries"][0]["groups"][0]["lines"][0];
    assert_eq!(line["line"], 2);
    assert_eq!(line["text"], "héllo");
    let ranges = line["ranges"].as_array().expect("ranges");
    assert_eq!(ranges.len(), 1);
    assert_eq!(ranges[0]["start_byte"], 1);
    assert_eq!(ranges[0]["end_byte"], 3);
    assert_eq!(ranges[0].as_object().expect("range").len(), 2);
}

#[test]
fn grep_projection_drops_invalid_match_ranges() {
    let line = grep_line(1, "é", vec![ByteRange { start: 1, end: 2 }]);
    assert!(valid_match_ranges(&line).is_none());
    let entries = vec![entry("a", vec![line])];
    let projection = grep_projection(&entries, usize::MAX, true, grep_plan(&entries, usize::MAX));
    assert_eq!(
        projection["entries"][0]["groups"][0]["lines"][0]["ranges"],
        Value::Array(Vec::new())
    );
}

#[test]
fn a_range_out_of_order_or_bounds_is_invalid() {
    let line = |start, end| grep_line(1, "abc", vec![ByteRange { start, end }]);
    assert!(valid_match_ranges(&line(2, 1)).is_none());
    assert!(valid_match_ranges(&line(0, 4)).is_none());
    assert_eq!(valid_match_ranges(&line(3, 3)).expect("empty range").len(), 1);
}

fn phase_of(status: ToolStatus) -> String {
    let role = DisplayRole::Tool(Box::new(ToolRole {
        id: "t1".to_owned(),
        status,
        name: Arc::from("bash"),
    }));
    let block = project(&DisplayMessage::new(role, String::new()), &TestHost);
    block["phase"].as_str().expect("phase string").to_owned()
}

#[test]
fn project_reports_tool_status_as_phase_in_progress() {
    assert_eq!(phase_of(ToolStatus::InProgress), PHASE_IN_PROGRESS);
}

#[test]
fn project_reports_tool_status_as_phase_success() {
    assert_eq!(phase_of(ToolStatus::Success), PHASE_SUCCESS);
}

#[test]
fn project_reports_tool_status_as_phase_error() {
    assert_eq!(phase_of(ToolStatus::Error), PHASE_ERROR);
}

#[test]
fn renderable_includes_thinking_and_tools() {
    assert!(renderable(&DisplayMessage::new(
        DisplayRole::Thinking,
        String::new()
    )));
    let tool = DisplayRole::Tool(Box::new(ToolRole {
        id: "t1".to_owned(),
        status: ToolStatus::Success,
        name: Arc::from("bash"),
    }));
    assert!(renderable(&DisplayMessage::new(tool, String::new())));
}

#[test]
fn image_bearing_user_block_is_renderable() {
    let mut message = DisplayMessage::new(DisplayRole::User, IMAGE_PLACEHOLDER.to_owned());
    message.images = vec![png()];
    assert!(renderable(&message));
    let block = project(&message, &TestHost);
    assert_eq!(block["images"].as_array().expect("images array").len(), 1);
    assert!(!block.to_string().contains(PNG_PAYLOAD));
}

#[test]
fn every_role_has_a_kind() {
    assert_eq!(kind(&DisplayRole::User), "user");
    assert_eq!(kind(&DisplayRole::Assistant), "assistant");
    assert_eq!(kind(&DisplayRole::Thinking), "thinking");
    assert_eq!(kind(&tool(ToolStatus::Error, "x", "").role), "tool");
    assert_eq!(kind(&DisplayRole::Error), "error");
    assert_eq!(kind(&DisplayRole::Done), "done");
}

#[test]
fn only_a_tool_message_carries_a_tool() {
    let message = DisplayMessage::new(DisplayRole::Assistant, "x".to_owned());
    assert!(project(&message, &TestHost).get("tool").is_none());
    let message = tool(ToolStatus::Success, "bash", "x");
    let block = project(&message, &TestHost);
    assert_eq!(block["tool"]["name"], "bash");
    assert_eq!(block["tool"]["status"], "success");
}

#[test]
fn a_text_header_is_the_first_line_with_its_annotation() {
    let mut message = tool(ToolStatus::Success, "bash", "bash> ls\nrest");
    message.annotation = Some("2 lines".to_owned());
    message.turn_usage = Some("10k".to_owned());
    let block = project(&message, &TestHost);
    assert_eq!(block["tool"]["header"]["kind"], "text");
    assert_eq!(block["tool"]["header"]["text"], "bash> ls");
    assert_eq!(block["tool"]["header"]["annotation"], "2 lines");
    assert_eq!(block["tool"]["usage"], "10k");
    assert_eq!(block["turn_usage"], "10k");
    assert_eq!(block["text"], "bash> ls\nrest");
}

#[test]
fn a_snapshot_header_speaks_the_span_grammar() {
    let span = |text: &str, style| SnapshotSpan {
        text: text.to_owned(),
        style,
    };
    let mut message = tool(ToolStatus::Success, "bash", "x");
    message.render_header = Some(BufferSnapshot {
        lines: vec![SnapshotLine {
            spans: vec![
                span("a", SpanStyle::Default),
                span("b", SpanStyle::Named("bold".to_owned())),
                span("c", SpanStyle::Named("spinner:dots".to_owned())),
            ],
        }],
    });
    let block = project(&message, &TestHost);
    let line = &block["tool"]["header"]["lines"][0];
    assert_eq!(block["tool"]["header"]["kind"], "snapshot");
    assert_eq!(line[0].as_array().expect("span").len(), 1);
    assert_eq!(line[0][0], "a");
    assert_eq!(line[1][1], "bold");
    assert_eq!(line[2][0], "c");
    assert_eq!(line[2][1]["spinner"], "dots");
}

fn no_style() -> InlineStyle {
    InlineStyle {
        fg: None,
        bg: None,
        underline_color: None,
        bold: false,
        italic: false,
        underline: false,
        dim: false,
        strikethrough: false,
        reversed: false,
        hidden: false,
        slow_blink: false,
        rapid_blink: false,
    }
}

#[test]
fn colors_are_written_in_the_span_grammar() {
    assert_eq!(span_color_json(SpanColor::Rgb((0, 10, 255))), "#000aff");
    assert_eq!(span_color_json(SpanColor::Ansi(0)), "0");
    assert_eq!(span_color_json(SpanColor::Ansi(208)), "208");
    assert_eq!(span_color_json(SpanColor::Default), "default");
}

#[test]
fn an_inline_style_lists_what_is_set() {
    let style = InlineStyle {
        fg: Some(SpanColor::Ansi(3)),
        underline_color: Some(SpanColor::Default),
        italic: true,
        rapid_blink: true,
        ..no_style()
    };
    let json = inline_json(&style);
    let fields = json.as_object().expect("object");
    assert_eq!(fields.len(), 4);
    assert_eq!(json["fg"], "3");
    assert_eq!(json["underline_color"], "default");
    assert_eq!(json["italic"], true);
    assert_eq!(json["rapid_blink"], true);
    assert!(inline_json(&no_style())
        .as_object()
        .expect("object")
        .is_empty());
}

#[test]
fn an_inline_span_carries_its_table() {
    let line = SnapshotLine {
        spans: vec![SnapshotSpan {
            text: "a".to_owned(),
            style: SpanStyle::Inline(InlineStyle {
                bold: true,
                ..no_style()
            }),
        }],
    };
    let json = snapshot_line_json(&line, &vec![None]);
    assert_eq!(json[0][0], "a");
    assert_eq!(json[0][1]["bold"], true);
}

#[test]
fn lines_are_counted_like_the_transcript_counts_them() {
    assert_eq!(logical_line_count(""), 0);
    assert_eq!(logical_line_count("a"), 1);
    assert_eq!(logical_line_count("a\n"), 1);
    assert_eq!(logical_line_count("a\n\nb"), 3);
    assert_eq!(logical_line_count("\n"), 1);
    for text in ["a\r\nb", "é\n界\n", "x\n\n\n"] {
        assert_eq!(logical_line_count(text), text.lines().count());
    }
}

#[test]
fn a_budget_of_zero_is_no_budget() {
    assert_eq!(visible_lines(5, 0, false), 5);
    assert_eq!(visible_lines(5, 3, false), 3);
    assert_eq!(visible_lines(5, 3, true), 5);
    assert_eq!(visible_lines(2, 3, false), 2);
}

#[test]
fn code_is_cut_only_where_the_host_truncates() {
    assert_eq!(code_lines_shown(5, 3, false, true), 3);
    assert_eq!(code_lines_shown(5, 3, false, false), 5);
    assert_eq!(visible_code_lines(5, 3, false, &TestHost), 3);
    assert_eq!(visible_code_lines(3, 3, false, &TestHost), 3);
}

#[test]
fn a_truncation_adds_up_to_the_whole() {
    let display = body_display(42, 20, 20, false);
    let truncation = &display["truncation"];
    assert_eq!(truncation["head_hidden"], 0);
    assert_eq!(truncation["tail_hidden"], 22);
    assert_eq!(truncation["visible_start"], 1);
    assert_eq!(truncation["visible_end"], 20);
    assert_eq!(
        numbers(truncation, "head_hidden")
            + numbers(&display["limit"], "visible_lines")
            + numbers(truncation, "tail_hidden"),
        numbers(&display["limit"], "total_lines")
    );
    assert!(body_display(3, 3, 0, false)["truncation"].is_null());
    assert_eq!(body_display(3, 0, 0, false)["truncation"]["visible_start"], 0);
}

fn blocks(count: usize) -> Vec<InstructionBlock> {
    (0..count)
        .map(|n| InstructionBlock {
            path: format!("{n}.md"),
            content: format!("content {n}"),
        })
        .collect()
}

#[test]
fn instructions_are_their_own_block() {
    let block = project_instructions("i", "p", &blocks(3), 1, false, &TestHost).expect("block");
    assert_eq!(block["kind"], "instructions");
    assert_eq!(block["id"], "i");
    assert_eq!(block["parent_id"], "p");
    assert_eq!(block["phase"], PHASE_COMPLETE);
    assert_eq!(block["header"]["name"], "load");
    assert_eq!(block["header"]["text"], "0.md");
    assert_eq!(block["header"]["annotation"], "+2");
    assert_eq!(block["blocks"][2]["content"], "content 2");
    assert_eq!(block["display"]["limit"]["visible_lines"], 1);
    assert_eq!(block["display"]["limit"]["total_lines"], 3);
    assert_eq!(block["display"]["truncation"]["hidden_lines"], 2);
    assert!(block.get("tool").is_none());
    let block = project_instructions("i", "p", &blocks(1), 1, true, &TestHost).expect("block");
    assert!(block["header"]["annotation"].is_null());
    assert!(block["display"]["truncation"].is_null());
}

/// Calls every layout truncated, one row longer under a budget than without.
struct OddHost;

impl Host for OddHost {
    fn should_truncate(&self, _hidden: usize) -> bool {
        false
    }

    fn spinner_token(&self, _name: &String) -> Option<String> {
        None
    }

    fn plan_grep_layout(&self, _entries: &Vec<GrepFileEntry>, _limit: usize) -> GrepPlan {
        grep_plan(&[], 0)
    }

    fn compute_hunks(&self, _before: &String, _after: &String) -> Vec<DiffHunk> {
        Vec::new()
    }

    fn plan_instructions_layout(
        &self,
        _blocks: &Vec<InstructionBlock>,
        limit: usize,
    ) -> InstructionsPlan {
        InstructionsPlan {
            rows: if limit == usize::MAX { 1 } else { 2 },
            truncated: true,
        }
    }

    fn instructions_header(&self, _blocks: &Vec<InstructionBlock>) -> (String, Option<String>) {
        (String::new(), None)
    }

    fn instruction_limit(&self, _expanded: bool) -> usize {
        0
    }
}

#[test]
fn a_layout_that_hides_less_than_nothing_is_no_block() {
    assert!(project_instructions("i", "p", &blocks(1), 1, false, &OddHost).is_none());
}

/// Lays the same segment out one row longer every time it is asked.
struct GrowingHost(std::cell::Cell<usize>);

impl Host for GrowingHost {
    fn should_truncate(&self, hidden: usize) -> bool {
        OddHost.should_truncate(hidden)
    }

    fn spinner_token(&self, name: &String) -> Option<String> {
        OddHost.spinner_token(name)
    }

    fn plan_grep_layout(&self, entries: &Vec<GrepFileEntry>, limit: usize) -> GrepPlan {
        OddHost.plan_grep_layout(entries, limit)
    }

    fn compute_hunks(&self, before: &String, after: &String) -> Vec<DiffHunk> {
        OddHost.compute_hunks(before, after)
    }

    fn plan_instructions_layout(
        &self,
        _blocks: &Vec<InstructionBlock>,
        _limit: usize,
    ) -> InstructionsPlan {
        self.0.set(self.0.get() + 1);
        InstructionsPlan {
            rows: self.0.get(),
            truncated: true,
        }
    }

    fn instructions_header(&self, blocks: &Vec<InstructionBlock>) -> (String, Option<String>) {
        OddHost.instructions_header(blocks)
    }

    fn instruction_limit(&self, expanded: bool) -> usize {
        OddHost.instruction_limit(expanded)
    }
}

#[test]
fn an_expanded_segment_shows_all_its_lines() {
    let host = GrowingHost(std::cell::Cell::new(6));
    let block = project_instructions("i", "p", &blocks(1), 1, true, &host).expect("block");
    assert_eq!(block["display"]["limit"]["visible_lines"], 7);
    assert_eq!(block["display"]["limit"]["total_lines"], 7);
    assert_eq!(block["display"]["truncation"]["hidden_lines"], 0);
    let block = project_instructions("i", "p", &blocks(4), 1, true, &TestHost).expect("block");
    assert_eq!(block["display"]["limit"]["visible_lines"], 4);
    assert_eq!(block["display"]["limit"]["total_lines"], 4);
}

fn owner(message: &DisplayMessage, limit: usize, expanded: bool) -> BodyOwner {
    tool_body_owner(
        message,
        limit,
        SectionFlags {
            script: expanded,
            output: expanded,
        },
        &TestHost,
    )
}

fn with_output(output: ToolOutput) -> DisplayMessage {
    let mut message = tool(ToolStatus::Success, "bash", "x");
    message.tool_output = Some(Arc::new(output));
    message
}

#[test]
fn the_renderer_owns_text_that_fits() {
    let message = with_output(ToolOutput::Plain(plain("a\nb\nc")));
    assert_eq!(owner(&message, 3, false), BodyOwner::Lua);
    assert_eq!(owner(&message, 2, false), BodyOwner::Host);
    assert_eq!(owner(&message, 2, true), BodyOwner::Lua);
    let tolerant = tool_body_owner(&message, 2, SectionFlags::default(), &OddHost);
    assert_eq!(tolerant, BodyOwner::Lua);
}

#[test]
fn the_host_keeps_streamed_running_and_missing_bodies() {
    let mut message = with_output(ToolOutput::Plain(plain("a")));
    message.live_output = Some(String::new());
    assert_eq!(owner(&message, 0, true), BodyOwner::Host);
    let mut message = with_output(ToolOutput::Plain(plain("a")));
    message.render_snapshot = Some(snapshot("a"));
    assert_eq!(owner(&message, 0, true), BodyOwner::Host);
    let message = tool(ToolStatus::InProgress, "bash", "x");
    assert_eq!(owner(&message, 0, true), BodyOwner::Host);
    let message = tool(ToolStatus::Success, "bash", "x");
    assert_eq!(owner(&message, 0, true), BodyOwner::Host);
    assert_eq!(
        owner(&with_output(ToolOutput::Other), 0, true),
        BodyOwner::Host
    );
}

#[test]
fn a_message_that_is_no_tools_is_the_renderers() {
    let message = DisplayMessage::new(DisplayRole::User, String::new());
    assert_eq!(owner(&message, 0, false), BodyOwner::Lua);
}

#[test]
fn the_renderer_owns_every_settled_diff() {
    let message = with_output(ToolOutput::Diff {
        path: String::new(),
        before: String::new(),
        after: String::new(),
        summary: String::new(),
    });
    assert_eq!(owner(&message, 1, false), BodyOwner::Lua);
}

#[test]
fn the_renderer_owns_grep_only_expanded_and_whole() {
    let entries = || vec![entry("a", vec![grep_line(1, "x", Vec::new())])];
    let message = with_output(ToolOutput::GrepResult { entries: entries() });
    assert_eq!(owner(&message, 10, true), BodyOwner::Lua);
    assert_eq!(owner(&message, 10, false), BodyOwner::Host);
    let message = with_output(ToolOutput::GrepResult {
        entries: Vec::new(),
    });
    assert_eq!(owner(&message, 10, true), BodyOwner::Host);
}

#[test]
fn the_renderer_owns_code_only_with_both_sections_whole() {
    let read = || ToolOutput::ReadCode {
        path: String::new(),
        start_line: 1,
        lines: vec!["a".to_owned(), "b".to_owned()],
        total_lines: 2,
        instructions: None,
    };
    let mut message = with_output(read());
    assert_eq!(owner(&message, 0, true), BodyOwner::Host);
    message.tool_input = Some(Arc::new(ToolInput::Code {
        language: "sh".to_owned(),
        code: "a\nb\nc\n\n".to_owned(),
    }));
    assert_eq!(owner(&message, 3, false), BodyOwner::Lua);
    assert_eq!(owner(&message, 2, false), BodyOwner::Host);
    assert_eq!(owner(&message, 1, true), BodyOwner::Lua);
}

#[test]
fn todo_bodies_are_counted_by_item() {
    let item = || TodoItem {
        content: "a\nb".to_owned(),
        status: TodoStatus::Pending,
        priority: TodoPriority::Low,
    };
    let message = with_output(ToolOutput::TodoList(vec![item(), item()]));
    assert_eq!(owner(&message, 2, false), BodyOwner::Lua);
    assert_eq!(owner(&message, 1, false), BodyOwner::Host);
}

#[test]
fn the_host_keeps_collapsed_or_cut_instructions() {
    assert_eq!(
        instructions_body_owner(&blocks(2), false, &TestHost),
        BodyOwner::Host
    );
    assert_eq!(
        instructions_body_owner(&blocks(0), true, &TestHost),
        BodyOwner::Host
    );
    assert_eq!(
        instructions_body_owner(&blocks(2), true, &TestHost),
        BodyOwner::Lua
    );
    assert_eq!(
        instructions_body_owner(&blocks(3), true, &TestHost),
        BodyOwner::Host
    );
}
