//! Snapshot lines in the span grammar a renderer reads and writes:
//! `{ text, style? }` per span, the style a theme name, a table of
//! attributes, or a spinner token.

use crate::json::{
    fields, flag, json_tree, list, map_tree, no_fields, object, put, text, trees, trees_push, Json,
};
use crate::snapshot::{InlineStyle, SnapshotLine, SnapshotSpan, SpanColor, SpanStyle, SpanView};
use crate::text::{decimal, hex_byte, push_decimal, push_hex};
use serde_json::{Map as Fields, Value};
use vstd::prelude::*;

verus! {

/// A colour in the `#rrggbb | index | default` grammar.
pub open spec fn color_text(color: SpanColor) -> Seq<char> {
    match color {
        SpanColor::Rgb((r, g, b)) => seq!['#'] + hex_byte(r as nat) + hex_byte(g as nat)
            + hex_byte(b as nat),
        SpanColor::Ansi(index) => decimal(index as nat),
        SpanColor::Default => "default"@,
    }
}

/// A color in the `#rrggbb | index | default` grammar the span parser accepts.
pub fn span_color_json(color: SpanColor) -> (value: Value)
    ensures
        json_tree(value) == Json::Str(color_text(color)),
{
    match color {
        SpanColor::Rgb((r, g, b)) => {
            let mut name = String::new();
            name.push('#');
            push_hex(&mut name, r);
            push_hex(&mut name, g);
            push_hex(&mut name, b);
            assert(name@ =~= color_text(color));
            text(name.as_str())
        },
        SpanColor::Ansi(index) => {
            let mut name = String::new();
            push_decimal(&mut name, index);
            assert(name@ =~= color_text(color));
            text(name.as_str())
        },
        SpanColor::Default => text("default"),
    }
}

/// The fields with one more where there is a colour.
pub open spec fn with_color(
    style: Map<Seq<char>, Json>,
    key: Seq<char>,
    color: Option<SpanColor>,
) -> Map<Seq<char>, Json> {
    match color {
        Some(color) => style.insert(key, Json::Str(color_text(color))),
        None => style,
    }
}

/// The fields with one more, `true`, where the attribute is on.
pub open spec fn with_flag(style: Map<Seq<char>, Json>, key: Seq<char>, on: bool) -> Map<
    Seq<char>,
    Json,
> {
    if on {
        style.insert(key, Json::Bool(true))
    } else {
        style
    }
}

fn put_color(style: &mut Fields<String, Value>, key: &str, color: Option<SpanColor>)
    ensures
        map_tree(*final(style)) == with_color(map_tree(*old(style)), key@, color),
{
    if let Some(color) = color {
        put(style, key, span_color_json(color));
    }
}

fn put_flag(style: &mut Fields<String, Value>, key: &str, on: bool)
    ensures
        map_tree(*final(style)) == with_flag(map_tree(*old(style)), key@, on),
{
    if on {
        put(style, key, flag(true));
    }
}

/// An inline style as a table that holds what is set and nothing else.
pub open spec fn inline_tree(inline: InlineStyle) -> Json {
    let style = with_color(no_fields(), "fg"@, inline.fg);
    let style = with_color(style, "bg"@, inline.bg);
    let style = with_color(style, "underline_color"@, inline.underline_color);
    let style = with_flag(style, "bold"@, inline.bold);
    let style = with_flag(style, "italic"@, inline.italic);
    let style = with_flag(style, "underline"@, inline.underline);
    let style = with_flag(style, "dim"@, inline.dim);
    let style = with_flag(style, "strikethrough"@, inline.strikethrough);
    let style = with_flag(style, "reversed"@, inline.reversed);
    let style = with_flag(style, "hidden"@, inline.hidden);
    let style = with_flag(style, "slow_blink"@, inline.slow_blink);
    let style = with_flag(style, "rapid_blink"@, inline.rapid_blink);
    Json::Obj(style)
}

/// An inline style as a table: the colours and attributes that are set.
pub fn inline_json(inline: &InlineStyle) -> (value: Value)
    ensures
        json_tree(value) == inline_tree(*inline),
{
    let mut style = fields();
    put_color(&mut style, "fg", inline.fg);
    put_color(&mut style, "bg", inline.bg);
    put_color(&mut style, "underline_color", inline.underline_color);
    put_flag(&mut style, "bold", inline.bold);
    put_flag(&mut style, "italic", inline.italic);
    put_flag(&mut style, "underline", inline.underline);
    put_flag(&mut style, "dim", inline.dim);
    put_flag(&mut style, "strikethrough", inline.strikethrough);
    put_flag(&mut style, "reversed", inline.reversed);
    put_flag(&mut style, "hidden", inline.hidden);
    put_flag(&mut style, "slow_blink", inline.slow_blink);
    put_flag(&mut style, "rapid_blink", inline.rapid_blink);
    object(style)
}

/// A span in the span grammar. `token` is the spinner a named style stands
/// for, if it is one.
pub open spec fn span_tree(span: SpanView, token: Option<String>) -> Json {
    let content = Json::Str(span.text);
    match span.style {
        SpanStyle::Default => Json::Arr(seq![content]),
        SpanStyle::Named(name) => match token {
            Some(token) => Json::Arr(
                seq![content, Json::Obj(no_fields().insert("spinner"@, Json::Str(token@)))],
            ),
            None => Json::Arr(seq![content, Json::Str(name@)]),
        },
        SpanStyle::Inline(inline) => Json::Arr(seq![content, inline_tree(inline)]),
    }
}

/// A span in the same `{text, style?}` shape the span grammar takes. A named
/// style that stands for a spinner becomes the semantic spinner form, so a
/// renderer never learns the internal naming.
pub fn snapshot_span_json(span: &SnapshotSpan, token: &Option<String>) -> (value: Value)
    ensures
        json_tree(value) == span_tree(span@, *token),
{
    let mut parts: Vec<Value> = Vec::new();
    parts.push(text(span.text.as_str()));
    match &span.style {
        SpanStyle::Default => {},
        SpanStyle::Named(name) => match token {
            Some(token) => {
                let mut spinner = fields();
                put(&mut spinner, "spinner", text(token.as_str()));
                parts.push(object(spinner));
            },
            None => {
                parts.push(text(name.as_str()));
            },
        },
        SpanStyle::Inline(inline) => {
            parts.push(inline_json(inline));
        },
    }
    assert(trees(parts@) =~= span_tree(span@, *token)->Arr_0);
    list(parts)
}

/// The spans of a line in the span grammar.
pub open spec fn line_trees(spans: Seq<SpanView>, tokens: Seq<Option<String>>) -> Seq<Json> {
    Seq::new(spans.len(), |k: int| span_tree(spans[k], tokens[k]))
}

/// A line in the span grammar, with the spinner token of each span.
pub fn snapshot_line_json(line: &SnapshotLine, tokens: &Vec<Option<String>>) -> (value: Value)
    requires
        tokens@.len() == line.spans@.len(),
    ensures
        json_tree(value) == Json::Arr(line_trees(line@, tokens@)),
{
    let mut spans: Vec<Value> = Vec::new();
    let mut i: usize = 0;
    while i < line.spans.len()
        invariant
            tokens@.len() == line.spans@.len(),
            i <= line.spans@.len(),
            spans@.len() == i,
            trees(spans@) == line_trees(line@, tokens@).take(i as int),
        decreases line.spans@.len() - i,
    {
        let ghost before = spans@;
        let value = snapshot_span_json(&line.spans[i], &tokens[i]);
        spans.push(value);
        proof {
            trees_push(before, value);
            assert(line_trees(line@, tokens@).take(i + 1) =~= line_trees(line@, tokens@).take(
                i as int,
            ).push(line_trees(line@, tokens@)[i as int]));
        }
        i += 1;
    }
    assert(line_trees(line@, tokens@).take(i as int) =~= line_trees(line@, tokens@));
    list(spans)
}

/// One spinner token per span, for every line.
pub open spec fn tokens_fit(lines: Seq<SnapshotLine>, tokens: Seq<Vec<Option<String>>>) -> bool {
    &&& tokens.len() == lines.len()
    &&& forall|k: int| 0 <= k < lines.len() ==> (#[trigger] tokens[k])@.len() == lines[k].spans@.len()
}

/// The lines in the span grammar.
pub open spec fn lines_trees(lines: Seq<SnapshotLine>, tokens: Seq<Vec<Option<String>>>) -> Seq<
    Json,
> {
    Seq::new(lines.len(), |k: int| Json::Arr(line_trees(lines[k]@, tokens[k]@)))
}

/// Lines in the span grammar, with the spinner token of each span.
pub fn snapshot_lines_json(lines: &Vec<SnapshotLine>, tokens: &Vec<Vec<Option<String>>>) -> (value:
    Value)
    requires
        tokens_fit(lines@, tokens@),
    ensures
        json_tree(value) == Json::Arr(lines_trees(lines@, tokens@)),
{
    let ghost all = lines_trees(lines@, tokens@);
    let mut rows: Vec<Value> = Vec::new();
    let mut i: usize = 0;
    while i < lines.len()
        invariant
            all == lines_trees(lines@, tokens@),
            tokens_fit(lines@, tokens@),
            i <= lines@.len(),
            rows@.len() == i,
            trees(rows@) == all.take(i as int),
        decreases lines@.len() - i,
    {
        let ghost before = rows@;
        assert(tokens@[i as int]@.len() == lines@[i as int].spans@.len());
        let value = snapshot_line_json(&lines[i], &tokens[i]);
        rows.push(value);
        proof {
            trees_push(before, value);
            assert(all.take(i + 1) =~= all.take(i as int).push(all[i as int]));
        }
        i += 1;
    }
    assert(all.take(i as int) =~= all);
    list(rows)
}

} // verus!
