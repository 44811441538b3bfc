use maki_transcript::compose::{Alignment, Line, Span, SpinnerLine};
use maki_transcript::layout::Rendered;
use maki_transcript::message::{ByteRange, SectionFlags};
use maki_transcript::place::{
    Decoration, HighlightRequest, RenderLimits, RenderObject, ToolLines, MAX_RAW_HEIGHT,
    MAX_RAW_WIDTH,
};
use maki_transcript::snapshot::{SnapshotLine, SnapshotSpan, SpanStyle};
use maki_transcript::theme::{render, render_with_bodies, render_with_tools, Theme};
use ratatui::style::{Color, Modifier, Style};

/// Colours `tool` and `error`, makes `loud` italic, and spins `spin` and
/// `spin:` styles.
struct TestTheme;

fn style_by_name(name: &str) -> Style {
    match name {
        "tool" => Style::default().fg(Color::Blue),
        "error" => Style::default().fg(Color::Red),
        "loud" => Style::default().add_modifier(Modifier::ITALIC),
        _ => Style::default(),
    }
}

impl Theme for TestTheme {
    fn resolve_span_style(&self, style: &SpanStyle) -> Style {
        match style {
            SpanStyle::Named(name) => style_by_name(name),
            _ => Style::default(),
        }
    }

    fn spinner_style_name(&self, style: &SpanStyle) -> Option<Option<String>> {
        match style {
            SpanStyle::Named(name) if name == "spin" => Some(None),
            SpanStyle::Named(name) => name
                .strip_prefix("spin:")
                .map(|style| Some(style.to_owned())),
            _ => None,
        }
    }

    fn spinner_span(&self, style: &Option<String>) -> Span {
        Span {
            content: "*".to_owned(),
            style: style_by_name(style.as_deref().unwrap_or_default()),
        }
    }
}

const SGR_RED: &str = "\u{1b}[31m";
const RAW_WIDTH: u16 = 3;
const RAW_HEIGHT: u16 = 2;
const PLACEHOLDER_CELL: &str = " ";

fn lines(text: &str) -> RenderObject {
    RenderObject::Lines {
        lines: vec![SnapshotLine::plain(text.to_owned())],
        decorations: Vec::new(),
    }
}

fn decoration(line: usize, start: usize, end: usize, group: &str) -> Decoration {
    Decoration {
        line,
        bytes: ByteRange { start, end },
        group: group.to_owned(),
        style: SpanStyle::Named(group.to_owned()),
    }
}

fn decorated(text: &str, decorations: Vec<Decoration>) -> RenderObject {
    RenderObject::Lines {
        lines: vec![SnapshotLine::plain(text.to_owned())],
        decorations,
    }
}

fn contents(line: &Line) -> Vec<&str> {
    line.spans.iter().map(|span| span.content.as_str()).collect()
}

fn texts(rendered: &Rendered) -> Vec<String> {
    rendered.lines.iter().map(|line| contents(line).concat()).collect()
}

fn raw_line(text: &str) -> Line {
    Line {
        spans: vec![Span {
            content: text.to_owned(),
            style: Style::default(),
        }],
        style: Style::default(),
        alignment: None,
    }
}

#[test]
fn render_passes_lines_through_without_raw() {
    let objects = vec![lines("a")];
    let rendered = render(&objects, &TestTheme).unwrap();
    let (lines, raw) = (rendered.lines, rendered.raw);
    assert_eq!(lines.len(), 1);
    assert_eq!(lines[0].spans[0].content, "a");
    assert!(raw.is_empty());
}

#[test]
fn render_applies_overlapping_decorations_in_order() {
    let objects = vec![decorated(
        "a界b",
        vec![decoration(0, 1, 4, "tool"), decoration(0, 1, 5, "error")],
    )];
    let rendered = render(&objects, &TestTheme).expect("rendered");
    assert_eq!(contents(&rendered.lines[0]), vec!["a", "界", "b"]);
    assert_eq!(
        rendered.lines[0].spans[1].style,
        style_by_name("tool").patch(style_by_name("error"))
    );
    assert_eq!(
        rendered.lines[0].spans[2].style,
        style_by_name("tool").patch(style_by_name("error"))
    );
    assert_eq!(rendered.lines[0].spans[0].style, Style::default());
}

#[test]
fn a_style_under_a_decoration_shows_through() {
    let objects = vec![decorated(
        "ab",
        vec![decoration(0, 0, 2, "loud"), decoration(0, 0, 1, "error")],
    )];
    let rendered = render(&objects, &TestTheme).expect("rendered");
    assert_eq!(
        rendered.lines[0].spans[0].style,
        Style::default()
            .fg(Color::Red)
            .add_modifier(Modifier::ITALIC)
    );
    assert_eq!(rendered.lines[0].spans[1].style, style_by_name("loud"));
}

#[test]
fn a_later_decoration_lies_over_an_earlier_one() {
    let over = |first: &str, second: &str| {
        let objects = vec![decorated(
            "ab",
            vec![decoration(0, 0, 2, first), decoration(0, 0, 2, second)],
        )];
        render(&objects, &TestTheme).expect("rendered").lines[0].spans[0].style
    };
    assert_eq!(over("tool", "error").fg, Some(Color::Red));
    assert_eq!(over("error", "tool").fg, Some(Color::Blue));
}

#[test]
fn a_decoration_styles_whole_characters() {
    let objects = vec![decorated("a界b", vec![decoration(0, 1, 4, "tool")])];
    let rendered = render(&objects, &TestTheme).expect("rendered");
    assert_eq!(rendered.lines[0].spans[1].content, "界");
    assert_eq!(rendered.lines[0].spans[1].style, style_by_name("tool"));
    assert_eq!(texts(&rendered), ["a界b"]);
}

#[test]
fn a_decoration_runs_over_several_spans() {
    let span = |text: &str, style: &str| SnapshotSpan {
        text: text.to_owned(),
        style: SpanStyle::Named(style.to_owned()),
    };
    let objects = vec![RenderObject::Lines {
        lines: vec![SnapshotLine {
            spans: vec![span("abc", "loud"), span("", "tool"), span("def", "error")],
        }],
        decorations: vec![decoration(0, 2, 4, "tool")],
    }];
    let rendered = render(&objects, &TestTheme).expect("rendered");
    assert_eq!(contents(&rendered.lines[0]), ["ab", "c", "", "d", "ef"]);
    let spans = &rendered.lines[0].spans;
    assert_eq!(spans[0].style, style_by_name("loud"));
    assert_eq!(
        spans[1].style,
        style_by_name("loud").patch(style_by_name("tool"))
    );
    assert_eq!(spans[2].style, style_by_name("tool"));
    assert_eq!(
        spans[3].style,
        style_by_name("error").patch(style_by_name("tool"))
    );
    assert_eq!(spans[4].style, style_by_name("error"));
}

#[test]
fn a_decoration_that_ends_before_it_starts_styles_nothing() {
    let objects = vec![decorated("abcd", vec![decoration(0, 3, 1, "tool")])];
    let rendered = render(&objects, &TestTheme).expect("rendered");
    assert_eq!(contents(&rendered.lines[0]), ["a", "bc", "d"]);
    assert!(rendered.lines[0]
        .spans
        .iter()
        .all(|span| span.style == Style::default()));
}

#[test]
fn render_refuses_invalid_decoration_boundaries() {
    let objects = vec![decorated("界", vec![decoration(0, 1, 3, "tool")])];
    assert!(render(&objects, &TestTheme).is_none());
}

#[test]
fn render_refuses_a_decoration_outside_its_lines() {
    assert!(render(
        &vec![decorated("ab", vec![decoration(1, 0, 1, "tool")])],
        &TestTheme
    )
    .is_none());
    assert!(render(
        &vec![decorated("ab", vec![decoration(0, 0, 3, "tool")])],
        &TestTheme
    )
    .is_none());
}

#[test]
fn render_places_raw_after_the_lines_it_follows() {
    let objects = vec![
        lines("a"),
        RenderObject::Raw {
            seq: SGR_RED.to_owned(),
            width: RAW_WIDTH,
            height: RAW_HEIGHT,
        },
    ];
    let rendered = render(&objects, &TestTheme).unwrap();
    let (lines, raw) = (rendered.lines, rendered.raw);
    assert_eq!(raw.len(), 1);
    assert_eq!(raw[0].row, 1);
    assert_eq!(raw[0].seq, SGR_RED);
    assert_eq!(raw[0].width, RAW_WIDTH);
    assert_eq!(raw[0].height, RAW_HEIGHT);
    assert_eq!(lines.len(), 1 + usize::from(RAW_HEIGHT));
    let placeholder = PLACEHOLDER_CELL.repeat(RAW_WIDTH as usize);
    for line in &lines[1..] {
        assert_eq!(line.spans[0].content, placeholder.as_str());
        assert_eq!(line.spans[0].style, Style::default());
    }
}

#[test]
fn render_clamps_raw_dimensions() {
    let objects = vec![RenderObject::Raw {
        seq: SGR_RED.to_owned(),
        width: u16::MAX,
        height: u16::MAX,
    }];
    let rendered = render(&objects, &TestTheme).unwrap();
    let (lines, raw) = (rendered.lines, rendered.raw);
    assert_eq!(raw[0].width, MAX_RAW_WIDTH);
    assert_eq!(raw[0].height, MAX_RAW_HEIGHT);
    assert_eq!(lines.len(), usize::from(MAX_RAW_HEIGHT));
}

#[test]
fn render_refuses_an_invalid_raw_sequence() {
    let objects = vec![RenderObject::Raw {
        seq: "\u{1b}]0;title\u{7}".to_owned(),
        width: 1,
        height: 1,
    }];
    assert!(render(&objects, &TestTheme).is_none());
}

fn tool_lines() -> ToolLines {
    ToolLines {
        lines: vec![
            raw_line("bash> ls"),
            raw_line("  a.txt"),
            raw_line("  b.txt"),
        ],
        highlight: Some(HighlightRequest {
            range: (1, 3),
            input: None,
            output: None,
            limits: RenderLimits {
                script: 1,
                output: 2,
            },
        }),
        spinner_lines: vec![SpinnerLine::new(1, 0)],
        snapshot_base: Some(1),
        content_indent: "  ",
        truncation: SectionFlags {
            script: false,
            output: true,
        },
    }
}

#[test]
fn tool_body_alone_keeps_the_native_lines_and_metadata() {
    let objects = vec![RenderObject::ToolBody];
    let rendered =
        render_with_tools(&objects, Some(tool_lines()), &TestTheme).expect("body placed");
    assert_eq!(
        rendered.lines,
        vec![
            raw_line("bash> ls"),
            raw_line("  a.txt"),
            raw_line("  b.txt")
        ]
    );
    let body = rendered.tool.expect("tool body");
    assert_eq!(body.offset, 0);
    assert_eq!(body.highlight.expect("highlight").range, (1, 3));
    assert_eq!(body.spinner_lines, vec![SpinnerLine::new(1, 0)]);
    assert_eq!(body.snapshot_base, Some(1));
    assert!(body.truncation.output);
}

#[test]
fn tool_body_metadata_is_shifted_by_the_lines_lua_puts_above_it() {
    let objects = vec![lines("above"), RenderObject::ToolBody, lines("below")];
    let rendered =
        render_with_tools(&objects, Some(tool_lines()), &TestTheme).expect("body placed");
    assert_eq!(rendered.lines.len(), 5);
    let body = rendered.tool.expect("tool body");
    assert_eq!(body.offset, 1);
    assert_eq!(body.highlight.expect("highlight").range, (2, 4));
    assert_eq!(body.spinner_lines, vec![SpinnerLine::new(2, 0)]);
    assert_eq!(body.snapshot_base, Some(2));
}

#[test]
fn a_second_tool_body_refuses_the_block() {
    let objects = vec![RenderObject::ToolBody, RenderObject::ToolBody];
    assert!(render_with_tools(&objects, Some(tool_lines()), &TestTheme).is_none());
}

#[test]
fn a_tool_body_without_a_native_body_refuses_the_block() {
    assert!(render(&vec![RenderObject::ToolBody], &TestTheme).is_none());
}

#[test]
fn both_native_bodies_land_where_their_markers_are() {
    let objects = vec![
        RenderObject::InstructionsBody,
        lines("between"),
        RenderObject::ToolBody,
    ];
    let rendered = render_with_bodies(
        &objects,
        Some(tool_lines()),
        Some(tool_lines()),
        &TestTheme,
    )
    .expect("bodies placed");
    assert_eq!(rendered.lines.len(), 7);
    assert_eq!(rendered.instructions.expect("instructions").offset, 0);
    let body = rendered.tool.expect("tool body");
    assert_eq!(body.offset, 4);
    assert_eq!(body.highlight.expect("highlight").range, (5, 7));
    assert!(render_with_bodies(
        &vec![
            RenderObject::InstructionsBody,
            RenderObject::InstructionsBody
        ],
        None,
        Some(tool_lines()),
        &TestTheme
    )
    .is_none());
}

#[test]
fn a_native_line_keeps_its_own_style_and_place() {
    let mut body = tool_lines();
    body.lines[1].style = style_by_name("error");
    body.lines[1].alignment = Some(Alignment::Right);
    let rendered = render_with_tools(
        &vec![lines("above"), RenderObject::ToolBody],
        Some(body),
        &TestTheme,
    )
    .expect("body placed");
    assert_eq!(rendered.lines[2].style, style_by_name("error"));
    assert_eq!(rendered.lines[2].alignment, Some(Alignment::Right));
    assert_eq!(rendered.lines[0].style, Style::default());
    assert_eq!(rendered.lines[0].alignment, None);
}

#[test]
fn a_body_nobody_asks_for_is_not_placed() {
    let rendered = render_with_tools(&vec![lines("a")], Some(tool_lines()), &TestTheme)
        .expect("rendered");
    assert!(rendered.tool.is_none());
    assert_eq!(texts(&rendered), ["a"]);
}

fn spinning(text: &str, style: &str) -> SnapshotLine {
    SnapshotLine {
        spans: vec![
            SnapshotSpan {
                text: "run ".to_owned(),
                style: SpanStyle::Default,
            },
            SnapshotSpan {
                text: text.to_owned(),
                style: SpanStyle::Named(style.to_owned()),
            },
        ],
    }
}

#[test]
fn a_spinner_shows_its_frame_and_is_tracked() {
    let objects = vec![
        lines("above"),
        RenderObject::Lines {
            lines: vec![spinning("...", "spin:tool"), spinning("...", "spin")],
            decorations: vec![decoration(0, 0, 3, "error")],
        },
    ];
    let rendered = render(&objects, &TestTheme).expect("rendered");
    assert_eq!(texts(&rendered), ["above", "run *", "run *"]);
    assert_eq!(
        rendered.spinner_lines,
        vec![
            SpinnerLine {
                line: 1,
                span: 2,
                style: Some("tool".to_owned()),
            },
            SpinnerLine::new(2, 1),
        ]
    );
    assert_eq!(rendered.lines[1].spans[2].style, style_by_name("tool"));
}

#[test]
fn a_decoration_may_not_reach_into_a_spinner() {
    let objects = vec![RenderObject::Lines {
        lines: vec![spinning("...", "spin")],
        decorations: vec![decoration(0, 3, 5, "error")],
    }];
    assert!(render(&objects, &TestTheme).is_none());
}
