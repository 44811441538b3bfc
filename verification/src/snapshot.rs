//! The styled-line vocabulary shared by renderers and the host: lines of
//! spans, each span a run of text with one style.

use vstd::prelude::*;

verus! {

/// A colour in the span grammar: an RGB triple, a palette index, or the
/// terminal's default.
#[derive(Debug, Clone, Copy, PartialEq, Eq)]
pub enum SpanColor {
    Rgb((u8, u8, u8)),
    Ansi(u8),
    Default,
}

/// A style spelled out attribute by attribute.
#[derive(Debug, Clone, Copy, PartialEq, Eq)]
pub struct InlineStyle {
    pub fg: Option<SpanColor>,
    pub bg: Option<SpanColor>,
    pub underline_color: Option<SpanColor>,
    pub bold: bool,
    pub italic: bool,
    pub underline: bool,
    pub dim: bool,
    pub strikethrough: bool,
    pub reversed: bool,
    pub hidden: bool,
    pub slow_blink: bool,
    pub rapid_blink: bool,
}

/// How a span is drawn: unstyled, by a theme name, or inline.
#[derive(Debug, PartialEq, Eq)]
pub enum SpanStyle {
    Default,
    Named(String),
    Inline(InlineStyle),
}

impl Clone for SpanStyle {
    fn clone(&self) -> (copy: Self)
        ensures
            copy == *self,
    {
        match self {
            SpanStyle::Default => SpanStyle::Default,
            SpanStyle::Named(name) => SpanStyle::Named(name.clone()),
            SpanStyle::Inline(inline) => SpanStyle::Inline(*inline),
        }
    }
}

/// A run of text with one style.
#[derive(Debug, PartialEq, Eq)]
pub struct SnapshotSpan {
    pub text: String,
    pub style: SpanStyle,
}

/// What a [`SnapshotSpan`] holds: its characters and its style.
pub struct SpanView {
    pub text: Seq<char>,
    pub style: SpanStyle,
}

impl View for SnapshotSpan {
    type V = SpanView;

    open spec fn view(&self) -> SpanView {
        SpanView { text: self.text@, style: self.style }
    }
}

impl Clone for SnapshotSpan {
    fn clone(&self) -> (copy: Self)
        ensures
            copy == *self,
    {
        SnapshotSpan { text: self.text.clone(), style: self.style.clone() }
    }
}

/// One line of styled text.
#[derive(Debug, PartialEq, Eq)]
pub struct SnapshotLine {
    pub spans: Vec<SnapshotSpan>,
}

/// The contents of a run of spans.
pub open spec fn span_views(spans: Seq<SnapshotSpan>) -> Seq<SpanView> {
    Seq::new(spans.len(), |i: int| spans[i]@)
}

impl View for SnapshotLine {
    type V = Seq<SpanView>;

    open spec fn view(&self) -> Seq<SpanView> {
        span_views(self.spans@)
    }
}

/// The contents of a run of lines.
pub open spec fn line_views(lines: Seq<SnapshotLine>) -> Seq<Seq<SpanView>> {
    Seq::new(lines.len(), |i: int| lines[i]@)
}

/// The text of a run of spans, in order.
pub open spec fn spans_text(spans: Seq<SpanView>) -> Seq<char>
    decreases spans.len(),
{
    if spans.len() == 0 {
        Seq::empty()
    } else {
        spans_text(spans.drop_last()) + spans.last().text
    }
}

impl SnapshotLine {
    /// A single unstyled span.
    pub fn plain(text: String) -> (line: SnapshotLine)
        ensures
            line@ =~= seq![SpanView { text: text@, style: SpanStyle::Default }],
    {
        let mut spans: Vec<SnapshotSpan> = Vec::new();
        spans.push(SnapshotSpan { text, style: SpanStyle::Default });
        SnapshotLine { spans }
    }
}

} // verus!
