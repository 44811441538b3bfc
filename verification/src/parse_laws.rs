//! What a renderer returned and what the block then holds, element by element.

use crate::lua::{kind_of, lua_variant, LuaReader, LuaValue};
use crate::parse::{
    a_list_keeps_its_order, item_object, item_read, list_read, marker_read, returned, slot_read,
    the_first_bad_element_fails_the_list, value_read, ItemReading, LuaReturn, Marker, RawReading,
};
use crate::place::ObjectView;
use crate::render::RenderView;
use crate::snapshot::{SnapshotLine, SpanStyle};
use vstd::prelude::*;

verus! {

/// The object holds exactly the line: one line, span for span with text and
/// style, and no decorations.
pub open spec fn holds_line(object: ObjectView, line: SnapshotLine) -> bool {
    &&& object matches ObjectView::Lines { lines, decorations }
    &&& decorations.len() == 0
    &&& lines.len() == 1
    &&& lines[0].len() == line.spans@.len()
    &&& forall|j: int|
        0 <= j < line.spans@.len() ==> (#[trigger] lines[0][j]).text == line.spans@[j].text@
            && lines[0][j].style == line.spans@[j].style
}

/// The object holds exactly the requested sequence, in the rectangle asked for;
/// a size that was not given is zero.
pub open spec fn holds_raw(object: ObjectView, raw: RawReading) -> bool {
    &&& object matches ObjectView::Raw { seq, width, height }
    &&& raw.seq matches Ok(asked) && seq == asked@
    &&& raw.width matches Ok(asked) && width == (if asked is Some {
        asked->Some_0
    } else {
        0u16
    })
    &&& raw.height matches Ok(asked) && height == (if asked is Some {
        asked->Some_0
    } else {
        0u16
    })
}

/// The object is what the element of a list asks for.
pub open spec fn holds_item(object: ObjectView, item: ItemReading) -> bool {
    match item {
        ItemReading::Line(line) => line matches Ok(line) && holds_line(object, line),
        ItemReading::Marked(Marker::Raw(raw)) => holds_raw(object, raw),
        ItemReading::Marked(Marker::Tool) => object == ObjectView::ToolBody,
        _ => false,
    }
}

/// Why a request for a raw sequence could not be read: its sequence, else its
/// width, else its height.
pub open spec fn raw_fault(raw: RawReading) -> Option<Seq<char>> {
    if raw.seq is Err {
        Some(raw.seq->Err_0@)
    } else if raw.width is Err {
        Some(raw.width->Err_0@)
    } else if raw.height is Err {
        Some(raw.height->Err_0@)
    } else {
        None
    }
}

/// What is wrong with an element of a list, if anything is.
pub open spec fn item_fault(item: ItemReading) -> Option<Seq<char>> {
    match item {
        ItemReading::Unreadable(error) => Some(error@),
        ItemReading::Marked(Marker::Raw(raw)) => raw_fault(raw),
        ItemReading::Marked(Marker::Tool) => None,
        ItemReading::Line(Ok(_)) => None,
        ItemReading::Line(Err(error)) => Some(error@),
        ItemReading::Other(name) => Some(
            "runtime error: "@ + ("render object must be a string, a line, or {raw = ...}, got "@
                + name@),
        ),
    }
}

/// A failure that no layer is to blame for.
pub open spec fn is_failure(render: RenderView, message: Seq<char>) -> bool {
    render == (RenderView::Failed { plugin: "<unknown>"@, message })
}

proof fn an_item_is_held_or_faulty(item: ItemReading)
    ensures
        match item_object(item) {
            Ok(object) => item_fault(item) is None && holds_item(object, item),
            Err(error) => item_fault(item) == Some(error),
        },
{
    if item is Line && item->Line_0 is Ok {
        let line = item->Line_0->Ok_0;
        let object = item_object(item)->Ok_0;
        let lines = object->lines;
        assert(lines[0] == line@);
        assert forall|j: int| 0 <= j < line.spans@.len() implies (#[trigger] lines[0][j]).text
            == line.spans@[j].text@ && lines[0][j].style == line.spans@[j].style by {
            assert(line@[j] == line.spans@[j]@);
        }
    }
}

/// A returned list without a fault is as many objects as it has elements, the
/// object at each position what the element there asks for: a line stands for
/// that line, span for span, a raw request for its sequence, and a tool marker
/// for the native body.
pub proof fn a_returned_list_is_its_objects(items: Vec<ItemReading>)
    requires
        forall|k: int| 0 <= k < items@.len() ==> item_fault(#[trigger] items@[k]) is None,
    ensures
        returned(LuaReturn::List(items)) matches RenderView::Objects(objects) && objects.len()
            == items@.len() && forall|k: int|
            0 <= k < items@.len() ==> holds_item(#[trigger] objects[k], items@[k]),
{
    assert forall|k: int| 0 <= k < items@.len() implies item_object(#[trigger] items@[k]) is Ok by {
        an_item_is_held_or_faulty(items@[k]);
    }
    a_list_keeps_its_order(items@);
    let objects = returned(LuaReturn::List(items))->Objects_0;
    assert forall|k: int| 0 <= k < items@.len() implies holds_item(
        #[trigger] objects[k],
        items@[k],
    ) by {
        an_item_is_held_or_faulty(items@[k]);
        assert(item_object(items@[k]) == Ok::<ObjectView, Seq<char>>(objects[k]));
    }
}

/// A returned list with a fault is a failure with the first fault's message,
/// and no object of it is kept.
pub proof fn a_returned_list_fails_with_its_first_fault(items: Vec<ItemReading>, k: int)
    requires
        0 <= k < items@.len(),
        item_fault(items@[k]) is Some,
        forall|j: int| 0 <= j < k ==> item_fault(#[trigger] items@[j]) is None,
    ensures
        is_failure(returned(LuaReturn::List(items)), item_fault(items@[k])->Some_0),
{
    an_item_is_held_or_faulty(items@[k]);
    assert forall|j: int| 0 <= j < k implies item_object(#[trigger] items@[j]) is Ok by {
        an_item_is_held_or_faulty(items@[j]);
    }
    the_first_bad_element_fails_the_list(items@, k);
}

/// What is returned outside a list: `nil` and `false` leave the block to the
/// host, a text is one unstyled line, a marker one object, and anything else a
/// failure that names its type.
pub proof fn a_returned_value_is_its_object(reading: LuaReturn)
    ensures
        reading is Nil || reading is False ==> returned(reading) is Unhandled,
        reading matches LuaReturn::Text(text) ==> match text {
            Ok(line) => returned(reading) matches RenderView::Objects(objects) && objects.len() == 1
                && (objects[0] matches ObjectView::Lines { lines, decorations }
                && decorations.len() == 0 && lines.len() == 1 && lines[0].len() == 1
                && lines[0][0].text == line@ && lines[0][0].style == SpanStyle::Default),
            Err(error) => is_failure(returned(reading), error@),
        },
        reading matches LuaReturn::Marked(marker) ==> match marker {
            Marker::Tool => returned(reading) matches RenderView::Objects(objects) && objects.len()
                == 1 && objects[0] == ObjectView::ToolBody,
            Marker::Raw(raw) => match raw_fault(raw) {
                Some(error) => is_failure(returned(reading), error),
                None => returned(reading) matches RenderView::Objects(objects) && objects.len() == 1
                    && holds_raw(objects[0], raw),
            },
        },
        reading matches LuaReturn::Other(name) ==> is_failure(
            returned(reading),
            "block renderer returned "@ + name@ + ", expected a list of lines or {raw = ...}"@,
        ),
        reading is List && reading->List_0@.len() == 0 ==> returned(reading)
            == RenderView::Objects(Seq::<ObjectView>::empty()),
{
}

/// A table's `raw` field was read and is a string, and the request is that
/// string with the table's `width` and `height`.
pub open spec fn asks_for_raw<R: LuaReader>(
    reader: &R,
    table: mlua::Table,
    raw: RawReading,
) -> bool {
    &&& exists|value: mlua::Value| #[trigger]
        call_ensures(R::field, (reader, &table, "raw"), Ok::<mlua::Value, String>(value)) && (
        lua_variant(value) matches LuaValue::Text(string) && call_ensures(
            R::text,
            (reader, &string),
            raw.seq,
        ))
    &&& call_ensures(R::cells_field, (reader, &table, "width"), raw.width)
    &&& call_ensures(R::cells_field, (reader, &table, "height"), raw.height)
}

/// A table's field was read and is not a string.
pub open spec fn no_raw<R: LuaReader>(reader: &R, table: mlua::Table) -> bool {
    exists|got: Result<mlua::Value, String>| #[trigger]
        call_ensures(R::field, (reader, &table, "raw"), got) && !(got matches Ok(value)
            && lua_variant(value) is Text)
}

/// A table's `tool` field was read, and is `true` or is not.
pub open spec fn tool_is<R: LuaReader>(reader: &R, table: mlua::Table, on: bool) -> bool {
    exists|got: Result<mlua::Value, String>| #[trigger]
        call_ensures(R::field, (reader, &table, "tool"), got) && on == (got matches Ok(value)
            && lua_variant(value) == LuaValue::Boolean(true))
}

/// A table is a request for a raw sequence when its `raw` field is a string,
/// else the tool marker when its `tool` field is `true`, else neither.
pub proof fn how_a_table_is_marked<R: LuaReader>(
    reader: &R,
    table: mlua::Table,
    marker: Option<Marker>,
)
    requires
        marker_read(reader, &table, marker),
    ensures
        match marker {
            Some(Marker::Raw(raw)) => asks_for_raw(reader, table, raw),
            Some(Marker::Tool) => no_raw(reader, table) && tool_is(reader, table, true),
            None => no_raw(reader, table) && tool_is(reader, table, false),
        },
{
}

/// How a returned value reads, by what it is.
pub proof fn how_a_value_reads<R: LuaReader>(
    reader: &R,
    value: mlua::Value,
    reading: LuaReturn,
)
    requires
        value_read(reader, value, reading),
    ensures
        lua_variant(value) is Nil <==> reading is Nil,
        lua_variant(value) == LuaValue::Boolean(false) <==> reading is False,
        lua_variant(value) is Text <==> reading is Text,
        lua_variant(value) is Table <==> reading is Marked || reading is List,
        lua_variant(value) matches LuaValue::Text(string) ==> call_ensures(
            R::text,
            (reader, &string),
            reading->Text_0,
        ),
        lua_variant(value) matches LuaValue::Table(table) ==> {
            &&& reading matches LuaReturn::Marked(Marker::Raw(raw)) ==> asks_for_raw(
                reader,
                table,
                raw,
            )
            &&& reading matches LuaReturn::Marked(Marker::Tool) ==> no_raw(reader, table)
                && tool_is(reader, table, true)
            &&& reading matches LuaReturn::List(items) ==> no_raw(reader, table) && tool_is(
                reader,
                table,
                false,
            ) && list_is_read(reader, table, items@)
        },
        reading matches LuaReturn::Other(name) ==> name@ == type_of(lua_variant(value)),
{
    types_have_their_names(lua_variant(value));
    if lua_variant(value) is Table {
        let table = lua_variant(value)->Table_0;
        if reading is Marked {
            how_a_table_is_marked(reader, table, Some(reading->Marked_0));
        } else {
            how_a_table_is_marked(reader, table, None);
            how_a_list_reads(reader, table, reading->List_0@);
        }
    }
}

/// The readings are the list's: one per element from the first on, up to its
/// length or a faulty element.
pub open spec fn list_is_read<R: LuaReader>(
    reader: &R,
    table: mlua::Table,
    items: Seq<ItemReading>,
) -> bool {
    &&& exists|len: usize| #[trigger]
        call_ensures(R::raw_len, (reader, &table), len) && items.len() <= len && (items.len() < len
            ==> items.len() > 0 && item_fault(items.last()) is Some)
    &&& forall|k: int|
        0 <= k < items.len() ==> element_read(
            reader,
            table,
            (k + 1) as usize,
            #[trigger] items[k],
        )
}

/// The name Lua programmers know a value's type by.
pub open spec fn type_of(value: LuaValue) -> Seq<char> {
    if value is Nil {
        "nil"@
    } else if value is Boolean {
        "boolean"@
    } else if value is Integer {
        "integer"@
    } else if value is Number {
        "number"@
    } else if value is Text {
        "string"@
    } else if value is Table {
        "table"@
    } else if value is Function {
        "function"@
    } else if value is Thread {
        "thread"@
    } else if value is UserData {
        "userdata"@
    } else if value is LightUserData {
        "lightuserdata"@
    } else if value is Error {
        "error"@
    } else {
        "other"@
    }
}

/// Every value is named by its type.
pub proof fn types_have_their_names(value: LuaValue)
    ensures
        kind_of(value) == type_of(value),
{
}

/// How a list reads: from its first element on, one reading per element, and
/// only a faulty element ends it before its length. A text element is a line, a
/// table one unless it is marked, and anything else is named by its type.
pub proof fn how_a_list_reads<R: LuaReader>(
    reader: &R,
    table: mlua::Table,
    items: Seq<ItemReading>,
)
    requires
        list_read(reader, &table, items),
    ensures
        list_is_read(reader, table, items),
{
    let len = choose|len: usize| #[trigger]
        call_ensures(R::raw_len, (reader, &table), len) && {
            &&& items.len() <= len
            &&& items.len() < len ==> items.len() > 0 && item_object(items.last()) is Err
            &&& forall|k: int|
                0 <= k < items.len() ==> slot_read(
                    reader,
                    &table,
                    (k + 1) as usize,
                    #[trigger] items[k],
                )
        };
    if items.len() > 0 {
        an_item_is_held_or_faulty(items.last());
    }
    assert(call_ensures(R::raw_len, (reader, &table), len));
    assert forall|k: int| 0 <= k < items.len() implies element_read(
        reader,
        table,
        (k + 1) as usize,
        #[trigger] items[k],
    ) by {
        let at = (k + 1) as usize;
        let item = items[k];
        assert(slot_read(reader, &table, at, item));
        let got = choose|got: Result<mlua::Value, String>| #[trigger]
            call_ensures(R::raw_item, (reader, &table, at), got) && match got {
                Ok(value) => item_read(reader, value, item),
                Err(error) => item == ItemReading::Unreadable(error),
            };
        assert(call_ensures(R::raw_item, (reader, &table, at), got));
        if got is Ok {
            let value = got->Ok_0;
            types_have_their_names(lua_variant(value));
            if lua_variant(value) is Table {
                let inner = lua_variant(value)->Table_0;
                if item is Marked {
                    how_a_table_is_marked(reader, inner, Some(item->Marked_0));
                } else {
                    how_a_table_is_marked(reader, inner, None);
                }
            }
        }
    }
}

/// How the element at a position reads.
pub open spec fn element_read<R: LuaReader>(
    reader: &R,
    table: mlua::Table,
    at: usize,
    item: ItemReading,
) -> bool {
    exists|got: Result<mlua::Value, String>| #[trigger]
        call_ensures(R::raw_item, (reader, &table, at), got) && match got {
            Err(error) => item == ItemReading::Unreadable(error),
            Ok(value) => {
                &&& lua_variant(value) is Text ==> item is Line
                &&& lua_variant(value) is Table ==> item is Line || item is Marked
                &&& !(lua_variant(value) is Text) && !(lua_variant(value) is Table) ==> (
                item matches ItemReading::Other(name) && name@ == type_of(lua_variant(value)))
                &&& item matches ItemReading::Line(line) ==> call_ensures(
                    R::parse_line,
                    (reader, &value),
                    line,
                )
                &&& lua_variant(value) matches LuaValue::Table(inner) ==> {
                    &&& item matches ItemReading::Marked(Marker::Raw(raw)) ==> asks_for_raw(
                        reader,
                        inner,
                        raw,
                    )
                    &&& item matches ItemReading::Marked(Marker::Tool) ==> no_raw(reader, inner)
                        && tool_is(reader, inner, true)
                    &&& item is Line ==> no_raw(reader, inner) && tool_is(reader, inner, false)
                }
            },
        }
}

} // verus!
