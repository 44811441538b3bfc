//! What a renderer's return value means: nothing, one line, a marker, or a
//! list of render objects.

use crate::lua::{kind, kind_of, lua_variant, runtime_error, variant, LuaReader, LuaRef, LuaValue};
use crate::place::{ObjectView, RenderObject};
use crate::render::{failed, object_views, unattributed, BlockRender, RenderView};
use crate::snapshot::{line_views, SnapshotLine, SpanStyle, SpanView};
use vstd::prelude::*;

verus! {

/// A request for a raw sequence, as read: the sequence and the rectangle it
/// wants, or why a part could not be read.
pub struct RawReading {
    pub seq: Result<String, String>,
    pub width: Result<Option<u16>, String>,
    pub height: Result<Option<u16>, String>,
}

/// A table that asks the host for something of its own.
pub enum Marker {
    /// A raw sequence in a rectangle.
    Raw(RawReading),
    /// The native tool body. A marker only: the host supplies the content and
    /// every piece of metadata, so a renderer has nothing to forge.
    Tool,
}

/// One element of a returned list, as read.
pub enum ItemReading {
    Unreadable(String),
    Marked(Marker),
    Line(Result<SnapshotLine, String>),
    /// Anything else, by the name of its type.
    Other(String),
}

/// A returned value, as read.
pub enum LuaReturn {
    Nil,
    False,
    Text(Result<String, String>),
    Marked(Marker),
    List(Vec<ItemReading>),
    /// Anything else, by the name of its type.
    Other(String),
}

/// The raw object a request describes. A size that is not given is zero.
pub open spec fn raw_object(raw: RawReading) -> Result<ObjectView, Seq<char>> {
    match (raw.seq, raw.width, raw.height) {
        (Err(error), _, _) => Err(error@),
        (_, Err(error), _) => Err(error@),
        (_, _, Err(error)) => Err(error@),
        (Ok(seq), Ok(width), Ok(height)) => Ok(
            ObjectView::Raw {
                seq: seq@,
                width: match width {
                    Some(width) => width,
                    None => 0,
                },
                height: match height {
                    Some(height) => height,
                    None => 0,
                },
            },
        ),
    }
}

/// The object a marker stands for.
pub open spec fn marker_object(marker: Marker) -> Result<ObjectView, Seq<char>> {
    match marker {
        Marker::Raw(raw) => raw_object(raw),
        Marker::Tool => Ok(ObjectView::ToolBody),
    }
}

/// A line without decorations.
pub open spec fn line_object(spans: Seq<SpanView>) -> ObjectView {
    ObjectView::Lines { lines: seq![spans], decorations: seq![] }
}

/// The object an element stands for, or why it stands for none.
pub open spec fn item_object(item: ItemReading) -> Result<ObjectView, Seq<char>> {
    match item {
        ItemReading::Unreadable(error) => Err(error@),
        ItemReading::Marked(marker) => marker_object(marker),
        ItemReading::Line(Ok(line)) => Ok(line_object(line@)),
        ItemReading::Line(Err(error)) => Err(error@),
        ItemReading::Other(name) => Err(
            "runtime error: "@ + ("render object must be a string, a line, or {raw = ...}, got "@
                + name@),
        ),
    }
}

/// The objects of a list, or the first element's failure.
pub open spec fn list_objects(items: Seq<ItemReading>) -> Result<Seq<ObjectView>, Seq<char>>
    decreases items.len(),
{
    if items.len() == 0 {
        Ok(seq![])
    } else {
        match list_objects(items.drop_last()) {
            Err(error) => Err(error),
            Ok(done) => match item_object(items.last()) {
                Ok(object) => Ok(done.push(object)),
                Err(error) => Err(error),
            },
        }
    }
}

/// What a returned value means.
pub open spec fn returned(reading: LuaReturn) -> RenderView {
    match reading {
        LuaReturn::Nil => RenderView::Unhandled,
        LuaReturn::False => RenderView::Unhandled,
        LuaReturn::Text(Ok(line)) => RenderView::Objects(
            seq![line_object(seq![SpanView { text: line@, style: SpanStyle::Default }])],
        ),
        LuaReturn::Text(Err(error)) => unattributed(error@),
        LuaReturn::Marked(marker) => match marker_object(marker) {
            Ok(object) => RenderView::Objects(seq![object]),
            Err(error) => unattributed(error),
        },
        LuaReturn::List(items) => match list_objects(items@) {
            Ok(objects) => RenderView::Objects(objects),
            Err(error) => unattributed(error),
        },
        LuaReturn::Other(name) => unattributed(
            "block renderer returned "@ + name@
                + ", expected a list of lines or {raw = ...}"@,
        ),
    }
}

/// The object a marker stands for.
fn settle_marker(marker: Marker) -> (object: Result<RenderObject, String>)
    ensures
        match object {
            Ok(object) => marker_object(marker) == Ok::<ObjectView, Seq<char>>(object@),
            Err(error) => marker_object(marker) == Err::<ObjectView, Seq<char>>(error@),
        },
{
    match marker {
        Marker::Raw(raw) => {
            let seq = match raw.seq {
                Ok(seq) => seq,
                Err(error) => return Err(error),
            };
            let width = match raw.width {
                Ok(width) => width,
                Err(error) => return Err(error),
            };
            let height = match raw.height {
                Ok(height) => height,
                Err(error) => return Err(error),
            };
            Ok(
                RenderObject::Raw {
                    seq,
                    width: match width {
                        Some(width) => width,
                        None => 0,
                    },
                    height: match height {
                        Some(height) => height,
                        None => 0,
                    },
                },
            )
        },
        Marker::Tool => Ok(RenderObject::ToolBody),
    }
}

/// A line without decorations.
fn settle_line(line: SnapshotLine) -> (object: RenderObject)
    ensures
        object@ == line_object(line@),
{
    let mut lines: Vec<SnapshotLine> = Vec::new();
    lines.push(line);
    assert(line_views(lines@) =~= seq![line@]);
    let object = RenderObject::Lines { lines, decorations: Vec::new() };
    assert(object@->decorations =~= seq![]);
    object
}

/// The object an element stands for, or why it stands for none.
fn settle_item(item: ItemReading) -> (object: Result<RenderObject, String>)
    ensures
        match object {
            Ok(object) => item_object(item) == Ok::<ObjectView, Seq<char>>(object@),
            Err(error) => item_object(item) == Err::<ObjectView, Seq<char>>(error@),
        },
{
    match item {
        ItemReading::Unreadable(error) => Err(error),
        ItemReading::Marked(marker) => settle_marker(marker),
        ItemReading::Line(Ok(line)) => Ok(settle_line(line)),
        ItemReading::Line(Err(error)) => Err(error),
        ItemReading::Other(name) => {
            let mut message =
                "render object must be a string, a line, or {raw = ...}, got ".to_owned();
            message.append(name.as_str());
            Err(runtime_error(message.as_str()))
        },
    }
}

/// The failure of an element is the failure of a list it is in, if all before
/// it are objects.
proof fn a_failure_stays(items: Seq<ItemReading>, k: int)
    requires
        0 <= k <= items.len(),
        list_objects(items.take(k)) is Err,
    ensures
        list_objects(items) == list_objects(items.take(k)),
    decreases items.len(),
{
    if k == items.len() {
        assert(items.take(k) =~= items);
    } else {
        assert(items.drop_last().take(k) =~= items.take(k));
        a_failure_stays(items.drop_last(), k);
    }
}

/// What a list means: its objects in order, or the first failure.
fn settle_list(items: Vec<ItemReading>) -> (render: BlockRender)
    ensures
        render@ == returned(LuaReturn::List(items)),
{
    let ghost all = items@;
    let mut objects: Vec<RenderObject> = Vec::new();
    assert(all.take(0) =~= seq![]);
    assert(object_views(objects@) =~= seq![]);
    for item in it: items.into_iter()
        invariant
            it.seq() == all,
            all == items@,
            it.index() <= all.len(),
            list_objects(all.take(it.index() as int)) == Ok::<Seq<ObjectView>, Seq<char>>(
                object_views(objects@),
            ),
    {
        let ghost i = it.index() as int;
        let ghost before = objects@;
        proof {
            assert(all.take(i + 1).drop_last() =~= all.take(i));
            assert(all.take(i + 1).last() == item);
        }
        match settle_item(item) {
            Ok(object) => {
                objects.push(object);
                assert(object_views(objects@) =~= object_views(before).push(object@));
            },
            Err(error) => {
                proof {
                    a_failure_stays(all, i + 1);
                }
                return failed(error);
            },
        }
    }
    assert(all.take(all.len() as int) =~= all);
    BlockRender::Objects(objects)
}

/// What a returned value means, once it is read.
pub fn settle_return(reading: LuaReturn) -> (render: BlockRender)
    ensures
        render@ == returned(reading),
{
    match reading {
        LuaReturn::Nil => BlockRender::Unhandled,
        LuaReturn::False => BlockRender::Unhandled,
        LuaReturn::Text(Ok(line)) => {
            let mut objects: Vec<RenderObject> = Vec::new();
            objects.push(settle_line(SnapshotLine::plain(line)));
            assert(object_views(objects@) =~= returned(reading)->Objects_0);
            BlockRender::Objects(objects)
        },
        LuaReturn::Text(Err(error)) => failed(error),
        LuaReturn::Marked(marker) => match settle_marker(marker) {
            Ok(object) => {
                let mut objects: Vec<RenderObject> = Vec::new();
                objects.push(object);
                assert(object_views(objects@) =~= seq![object@]);
                BlockRender::Objects(objects)
            },
            Err(error) => failed(error),
        },
        LuaReturn::List(items) => settle_list(items),
        LuaReturn::Other(name) => {
            let mut message = "block renderer returned ".to_owned();
            message.append(name.as_str());
            message.append(", expected a list of lines or {raw = ...}");
            failed(message)
        },
    }
}

/// How a table's `raw` field reads: a request for a raw sequence only when it
/// is a string.
pub open spec fn raw_read<R: LuaReader>(
    reader: &R,
    table: &mlua::Table,
    read: Option<RawReading>,
) -> bool {
    exists|field: Result<mlua::Value, String>| #[trigger]
        call_ensures(R::field, (reader, table, "raw"), field) && match field {
            Ok(value) => match lua_variant(value) {
                LuaValue::Text(string) => {
                    &&& read matches Some(raw)
                    &&& call_ensures(R::text, (reader, &string), raw.seq)
                    &&& call_ensures(R::cells_field, (reader, table, "width"), raw.width)
                    &&& call_ensures(R::cells_field, (reader, table, "height"), raw.height)
                },
                _ => read is None,
            },
            Err(_) => read is None,
        }
}

/// Reads a request for a raw sequence.
pub fn as_raw<R: LuaReader>(table: &mlua::Table, reader: &R) -> (read: Option<RawReading>)
    ensures
        raw_read(reader, table, read),
{
    let field = reader.field(table, "raw");
    let ghost answer = field;
    match field {
        Ok(value) => match variant(&value) {
            LuaRef::Text(string) => {
                let seq = reader.text(string);
                let width = reader.cells_field(table, "width");
                let height = reader.cells_field(table, "height");
                let raw = RawReading { seq, width, height };
                assert(call_ensures(R::field, (reader, table, "raw"), answer));
                Some(raw)
            },
            _ => {
                assert(call_ensures(R::field, (reader, table, "raw"), answer));
                None
            },
        },
        Err(_) => {
            assert(call_ensures(R::field, (reader, table, "raw"), answer));
            None
        },
    }
}

/// How a table's `tool` field reads: a marker only when it is `true`.
pub open spec fn tool_read<R: LuaReader>(reader: &R, table: &mlua::Table, tool: bool) -> bool {
    exists|field: Result<mlua::Value, String>| #[trigger]
        call_ensures(R::field, (reader, table, "tool"), field) && tool == (field matches Ok(value)
            && lua_variant(value) == LuaValue::Boolean(true))
}

/// A tool-body request is a marker only: the host supplies the content and
/// every piece of metadata, so a renderer has nothing to forge.
pub fn as_tool<R: LuaReader>(table: &mlua::Table, reader: &R) -> (tool: bool)
    ensures
        tool_read(reader, table, tool),
{
    let field = reader.field(table, "tool");
    let ghost answer = field;
    let tool = match field {
        Ok(value) => match variant(&value) {
            LuaRef::Boolean(on) => on,
            _ => false,
        },
        Err(_) => false,
    };
    assert(call_ensures(R::field, (reader, table, "tool"), answer));
    tool
}

/// How a table reads as a marker: a raw request before a tool body.
pub open spec fn marker_read<R: LuaReader>(
    reader: &R,
    table: &mlua::Table,
    marker: Option<Marker>,
) -> bool {
    match marker {
        Some(Marker::Raw(raw)) => raw_read(reader, table, Some(raw)),
        Some(Marker::Tool) => raw_read(reader, table, None) && tool_read(reader, table, true),
        None => raw_read(reader, table, None) && tool_read(reader, table, false),
    }
}

fn read_marker<R: LuaReader>(table: &mlua::Table, reader: &R) -> (marker: Option<Marker>)
    ensures
        marker_read(reader, table, marker),
{
    match as_raw(table, reader) {
        Some(raw) => Some(Marker::Raw(raw)),
        None => if as_tool(table, reader) {
            Some(Marker::Tool)
        } else {
            None
        },
    }
}

/// A value reads as a line.
pub open spec fn line_read<R: LuaReader>(
    reader: &R,
    value: &mlua::Value,
    line: Result<SnapshotLine, String>,
) -> bool {
    call_ensures(R::parse_line, (reader, value), line)
}

/// How an element of a list reads: a string is a line, a table a marker or
/// else a line.
pub open spec fn item_read<R: LuaReader>(
    reader: &R,
    value: mlua::Value,
    item: ItemReading,
) -> bool {
    match lua_variant(value) {
        LuaValue::Text(_) => item matches ItemReading::Line(line) && line_read(
            reader,
            &value,
            line,
        ),
        LuaValue::Table(table) => match item {
            ItemReading::Marked(marker) => marker_read(reader, &table, Some(marker)),
            ItemReading::Line(line) => marker_read(reader, &table, None) && line_read(
                reader,
                &value,
                line,
            ),
            _ => false,
        },
        other => item matches ItemReading::Other(name) && name@ == kind_of(other),
    }
}

fn read_item<R: LuaReader>(value: &mlua::Value, reader: &R) -> (item: ItemReading)
    ensures
        item_read(reader, *value, item),
{
    match variant(value) {
        LuaRef::Text(_) => ItemReading::Line(reader.parse_line(value)),
        LuaRef::Table(table) => match read_marker(table, reader) {
            Some(marker) => ItemReading::Marked(marker),
            None => ItemReading::Line(reader.parse_line(value)),
        },
        other => ItemReading::Other(kind(&other).to_owned()),
    }
}

/// How a position of a list reads.
pub open spec fn slot_read<R: LuaReader>(
    reader: &R,
    table: &mlua::Table,
    index: usize,
    item: ItemReading,
) -> bool {
    exists|got: Result<mlua::Value, String>| #[trigger]
        call_ensures(R::raw_item, (reader, table, index), got) && match got {
            Ok(value) => item_read(reader, value, item),
            Err(error) => item == ItemReading::Unreadable(error),
        }
}

/// How a list reads: from its first element on, up to its length or the first
/// element that stands for no object.
pub open spec fn list_read<R: LuaReader>(
    reader: &R,
    table: &mlua::Table,
    items: Seq<ItemReading>,
) -> bool {
    exists|len: usize| #[trigger]
        call_ensures(R::raw_len, (reader, table), len) && {
            &&& items.len() <= len
            &&& items.len() < len ==> items.len() > 0 && item_object(items.last()) is Err
            &&& forall|k: int|
                0 <= k < items.len() ==> slot_read(
                    reader,
                    table,
                    (k + 1) as usize,
                    #[trigger] items[k],
                )
        }
}

/// Whether an element stands for no object.
fn fails(item: &ItemReading) -> (fails: bool)
    ensures
        fails == (item_object(*item) is Err),
{
    match item {
        ItemReading::Unreadable(_) => true,
        ItemReading::Marked(Marker::Raw(raw)) => raw.seq.is_err() || raw.width.is_err()
            || raw.height.is_err(),
        ItemReading::Marked(Marker::Tool) => false,
        ItemReading::Line(line) => line.is_err(),
        ItemReading::Other(_) => true,
    }
}

fn read_list<R: LuaReader>(table: &mlua::Table, reader: &R) -> (items: Vec<ItemReading>)
    ensures
        list_read(reader, table, items@),
{
    let len = reader.raw_len(table);
    let mut items: Vec<ItemReading> = Vec::new();
    let mut i: usize = 0;
    while i < len
        invariant
            call_ensures(R::raw_len, (reader, table), len),
            i <= len,
            items@.len() == i,
            forall|k: int|
                0 <= k < items@.len() ==> slot_read(
                    reader,
                    table,
                    (k + 1) as usize,
                    #[trigger] items@[k],
                ),
        decreases len - i,
    {
        let ghost before = items@;
        let got = reader.raw_item(table, i + 1);
        let ghost answer = got;
        let item = match got {
            Ok(value) => read_item(&value, reader),
            Err(error) => ItemReading::Unreadable(error),
        };
        proof {
            assert(call_ensures(R::raw_item, (reader, table, (i + 1) as usize), answer));
            assert(slot_read(reader, table, (i + 1) as usize, item));
        }
        let stop = fails(&item);
        items.push(item);
        i += 1;
        assert(forall|k: int| 0 <= k < before.len() ==> items@[k] == before[k]);
        if stop {
            assert(call_ensures(R::raw_len, (reader, table), len));
            return items;
        }
    }
    items
}

/// How a returned value reads.
pub open spec fn value_read<R: LuaReader>(
    reader: &R,
    value: mlua::Value,
    reading: LuaReturn,
) -> bool {
    match lua_variant(value) {
        LuaValue::Nil => reading is Nil,
        LuaValue::Boolean(false) => reading is False,
        LuaValue::Text(string) => reading matches LuaReturn::Text(line) && call_ensures(
            R::text,
            (reader, &string),
            line,
        ),
        LuaValue::Table(table) => match reading {
            LuaReturn::Marked(marker) => marker_read(reader, &table, Some(marker)),
            LuaReturn::List(items) => marker_read(reader, &table, None) && list_read(
                reader,
                &table,
                items@,
            ),
            _ => false,
        },
        other => reading matches LuaReturn::Other(name) && name@ == kind_of(other),
    }
}

/// Reads a returned table: a marker, or else a list.
pub fn parse_objects<R: LuaReader>(table: &mlua::Table, reader: &R) -> (reading: LuaReturn)
    ensures
        match reading {
            LuaReturn::Marked(marker) => marker_read(reader, table, Some(marker)),
            LuaReturn::List(items) => marker_read(reader, table, None) && list_read(
                reader,
                table,
                items@,
            ),
            _ => false,
        },
{
    match read_marker(table, reader) {
        Some(marker) => LuaReturn::Marked(marker),
        None => LuaReturn::List(read_list(table, reader)),
    }
}

/// Reads what a renderer chain returned.
pub fn read_return<R: LuaReader>(value: &mlua::Value, reader: &R) -> (reading: LuaReturn)
    ensures
        value_read(reader, *value, reading),
{
    match variant(value) {
        LuaRef::Nil => LuaReturn::Nil,
        LuaRef::Boolean(on) => if on {
            LuaReturn::Other(kind(&LuaRef::Boolean(on)).to_owned())
        } else {
            LuaReturn::False
        },
        LuaRef::Text(string) => LuaReturn::Text(reader.text(string)),
        LuaRef::Table(table) => parse_objects(table, reader),
        other => LuaReturn::Other(kind(&other).to_owned()),
    }
}

/// What a renderer chain returned means to the caller: `nil` and `false` leave
/// the block to it, a string is one line, a table a marker or a list of render
/// objects, and anything else is a failure.
pub fn parse_result<R: LuaReader>(value: &mlua::Value, reader: &R) -> (render: BlockRender)
    ensures
        exists|reading: LuaReturn| #[trigger]
            value_read(reader, *value, reading) && render@ == returned(reading),
{
    let reading = read_return(value, reader);
    assert(value_read(reader, *value, reading));
    settle_return(reading)
}

/// A list of readable elements means as many objects, in the same order.
pub proof fn a_list_keeps_its_order(items: Seq<ItemReading>)
    requires
        forall|k: int| 0 <= k < items.len() ==> item_object(#[trigger] items[k]) is Ok,
    ensures
        list_objects(items) matches Ok(objects) && objects.len() == items.len() && forall|k: int|
            0 <= k < items.len() ==> item_object(#[trigger] items[k]) == Ok::<ObjectView, Seq<char>>(
                objects[k],
            ),
    decreases items.len(),
{
    if items.len() > 0 {
        let rest = items.drop_last();
        assert forall|k: int| 0 <= k < rest.len() implies item_object(#[trigger] rest[k]) is Ok by {
            assert(rest[k] == items[k]);
        }
        a_list_keeps_its_order(rest);
        let done = list_objects(rest)->Ok_0;
        assert(item_object(items[items.len() - 1]) is Ok);
        let objects = list_objects(items)->Ok_0;
        assert forall|k: int| 0 <= k < items.len() implies item_object(#[trigger] items[k]) == Ok::<
            ObjectView,
            Seq<char>,
        >(objects[k]) by {
            if k < rest.len() {
                assert(rest[k] == items[k]);
                assert(objects[k] == done[k]);
            }
        }
    }
}

/// One bad element fails the whole list, with the message of the first.
pub proof fn the_first_bad_element_fails_the_list(items: Seq<ItemReading>, k: int)
    requires
        0 <= k < items.len(),
        item_object(items[k]) is Err,
        forall|j: int| 0 <= j < k ==> item_object(#[trigger] items[j]) is Ok,
    ensures
        list_objects(items) == Err::<Seq<ObjectView>, Seq<char>>(item_object(items[k])->Err_0),
{
    let good = items.take(k);
    assert forall|j: int| 0 <= j < good.len() implies item_object(#[trigger] good[j]) is Ok by {
        assert(good[j] == items[j]);
    }
    a_list_keeps_its_order(good);
    assert(items.take(k + 1).drop_last() =~= good);
    assert(items.take(k + 1).last() == items[k]);
    a_failure_stays(items, k + 1);
}

} // verus!
