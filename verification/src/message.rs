//! Transcript messages: what the host knows about one block before anyone
//! renders it.

use crate::snapshot::SnapshotLine;
use std::sync::Arc;
use vstd::prelude::*;

verus! {

/// An encoded image attached to a message.
pub struct ImageSource {
    /// MIME type of the payload.
    pub media_type: String,
    /// The encoded payload.
    pub data: Arc<str>,
}

/// Lines a plugin rendered ahead of time.
pub struct BufferSnapshot {
    pub lines: Vec<SnapshotLine>,
}

/// How far a tool call has come.
#[derive(Debug, Clone, Copy, PartialEq, Eq, Structural)]
pub enum ToolStatus {
    InProgress,
    Success,
    Error,
}

/// The tool call a tool message stands for.
pub struct ToolRole {
    pub id: String,
    pub status: ToolStatus,
    pub name: Arc<str>,
}

/// Who a message is from.
pub enum DisplayRole {
    User,
    Assistant,
    Thinking,
    Tool(Box<ToolRole>),
    Error,
    Done,
}

/// Code a tool was called with. `Script` is the legacy form.
pub enum ToolInput {
    Code { language: String, code: String },
    Script { language: String, code: String },
}

/// Text a tool returned.
pub struct TextOutput {
    pub text: String,
}

/// Where a todo item stands.
#[derive(Debug, Clone, Copy, PartialEq, Eq, Structural)]
pub enum TodoStatus {
    Pending,
    InProgress,
    Completed,
    Cancelled,
}

/// How urgent a todo item is.
#[derive(Debug, Clone, Copy, PartialEq, Eq, Structural)]
pub enum TodoPriority {
    High,
    Medium,
    Low,
}

/// One entry of a todo list.
pub struct TodoItem {
    pub content: String,
    pub status: TodoStatus,
    pub priority: TodoPriority,
}

/// An instruction file the agent loaded.
pub struct InstructionBlock {
    pub path: String,
    pub content: String,
}

/// A byte range, half open.
#[derive(Debug, Clone, Copy, PartialEq, Eq, Structural)]
pub struct ByteRange {
    pub start: usize,
    pub end: usize,
}

/// One line of grep output.
pub struct GrepLine {
    pub line_nr: usize,
    pub text: String,
    pub is_match: bool,
    pub match_ranges: Vec<ByteRange>,
}

/// Adjacent lines of grep output.
pub struct GrepMatchGroup {
    pub lines: Vec<GrepLine>,
}

/// The matches in one file.
pub struct GrepFileEntry {
    pub path: String,
    pub groups: Vec<GrepMatchGroup>,
}

/// What a tool returned.
pub enum ToolOutput {
    Plain(TextOutput),
    Markdown(TextOutput),
    ReadDir(TextOutput),
    Batch { text: String },
    TodoList(Vec<TodoItem>),
    ReadCode {
        path: String,
        start_line: usize,
        lines: Vec<String>,
        total_lines: usize,
        instructions: Option<Vec<InstructionBlock>>,
    },
    Diff { path: String, before: String, after: String, summary: String },
    GrepResult { entries: Vec<GrepFileEntry> },
    /// Output without body lines of its own, such as images or legacy inline
    /// instructions.
    Other,
}

/// Which sections of a tool body are meant: the input script, the output.
#[derive(Debug, Clone, Copy, PartialEq, Eq, Structural)]
pub struct SectionFlags {
    pub script: bool,
    pub output: bool,
}

impl Default for SectionFlags {
    fn default() -> (flags: Self)
        ensures
            flags == (SectionFlags { script: false, output: false }),
    {
        SectionFlags { script: false, output: false }
    }
}

/// One transcript message.
pub struct DisplayMessage {
    pub role: DisplayRole,
    pub text: String,
    pub images: Vec<ImageSource>,
    pub thinking_collapsed: bool,
    pub annotation: Option<String>,
    pub timestamp: Option<String>,
    pub turn_usage: Option<String>,
    pub plan_path: Option<String>,
    pub render_header: Option<BufferSnapshot>,
    pub render_snapshot: Option<BufferSnapshot>,
    pub live_output: Option<String>,
    pub tool_input: Option<Arc<ToolInput>>,
    pub tool_output: Option<Arc<ToolOutput>>,
}

impl DisplayMessage {
    /// A message with the given role and text and nothing else.
    pub fn new(role: DisplayRole, text: String) -> (message: Self)
        ensures
            message.role == role,
            message.text == text,
            message.images@ == Seq::<ImageSource>::empty(),
            !message.thinking_collapsed,
            message.annotation is None,
            message.timestamp is None,
            message.turn_usage is None,
            message.plan_path is None,
            message.render_header is None,
            message.render_snapshot is None,
            message.live_output is None,
            message.tool_input is None,
            message.tool_output is None,
    {
        DisplayMessage {
            role,
            text,
            images: Vec::new(),
            thinking_collapsed: false,
            annotation: None,
            timestamp: None,
            turn_usage: None,
            plan_path: None,
            render_header: None,
            render_snapshot: None,
            live_output: None,
            tool_input: None,
            tool_output: None,
        }
    }
}

/// The kind name of a role.
pub open spec fn kind_name(role: DisplayRole) -> Seq<char> {
    match role {
        DisplayRole::User => "user"@,
        DisplayRole::Assistant => "assistant"@,
        DisplayRole::Thinking => "thinking"@,
        DisplayRole::Tool(_) => "tool"@,
        DisplayRole::Error => "error"@,
        DisplayRole::Done => "done"@,
    }
}

/// The kind name a renderer switches on.
pub fn kind(role: &DisplayRole) -> (name: &'static str)
    ensures
        name@ == kind_name(*role),
{
    match role {
        DisplayRole::User => "user",
        DisplayRole::Assistant => "assistant",
        DisplayRole::Thinking => "thinking",
        DisplayRole::Tool(_) => "tool",
        DisplayRole::Error => "error",
        DisplayRole::Done => "done",
    }
}

/// Blocks the renderer may own: every message the transcript shows. A tool
/// block's render places the host's native body, so its interactions and
/// metadata stay with the host. Images do not disqualify a block.
pub fn renderable(message: &DisplayMessage) -> (may: bool)
    ensures
        may,
{
    match message.role {
        DisplayRole::User => true,
        DisplayRole::Assistant => true,
        DisplayRole::Thinking => true,
        DisplayRole::Tool(_) => true,
        DisplayRole::Error => true,
        DisplayRole::Done => true,
    }
}

/// The name of a role's lifecycle phase.
pub open spec fn phase_name(role: DisplayRole) -> Seq<char> {
    match role {
        DisplayRole::Tool(tool) => match tool.status {
            ToolStatus::InProgress => "in_progress"@,
            ToolStatus::Success => "success"@,
            ToolStatus::Error => "error"@,
        },
        _ => "complete"@,
    }
}

/// The block's lifecycle phase as the host knows it, not a rendering hint.
pub fn phase(role: &DisplayRole) -> (name: &'static str)
    ensures
        name@ == phase_name(*role),
{
    match role {
        DisplayRole::Tool(tool) => match tool.status {
            ToolStatus::InProgress => "in_progress",
            ToolStatus::Success => "success",
            ToolStatus::Error => "error",
        },
        _ => "complete",
    }
}

/// Who holds a streamed body, if anyone does.
pub open spec fn authority_name(message: DisplayMessage) -> Seq<char> {
    if message.render_snapshot is Some {
        "snapshot"@
    } else if message.live_output is Some {
        "live"@
    } else {
        "none"@
    }
}

/// Who owns the tool body. A streamed plugin body outranks anything a
/// renderer can compose from the projection, so a renderer must keep the
/// native marker whenever the host holds one.
pub fn body_authority(message: &DisplayMessage) -> (name: &'static str)
    ensures
        name@ == authority_name(*message),
{
    if message.render_snapshot.is_some() {
        "snapshot"
    } else if message.live_output.is_some() {
        "live"
    } else {
        "none"
    }
}

} // verus!
