//! Lua values as the library handles them: told apart by what they are, and
//! read through the host that runs the interpreter.

use crate::snapshot::SnapshotLine;
use mlua::Value;
use vstd::prelude::*;

verus! {

/// `mlua::Value`, told apart by [`variant`] alone.
#[verifier::external_type_specification]
#[verifier::external_body]
pub struct ExLuaValue(mlua::Value);

/// `mlua::Table`, handed to the reader as it is.
#[verifier::external_type_specification]
#[verifier::external_body]
pub struct ExLuaTable(mlua::Table);

/// `mlua::Function`, carried through as it is.
#[verifier::external_type_specification]
#[verifier::external_body]
pub struct ExLuaFunction(mlua::Function);

/// `mlua::String`, handed to the reader as it is.
#[verifier::external_type_specification]
#[verifier::external_body]
pub struct ExLuaString(mlua::String);

/// `mlua::RegistryKey`, kept and handed back as it is.
#[verifier::external_type_specification]
#[verifier::external_body]
pub struct ExRegistryKey(mlua::RegistryKey);

/// What a Lua value is, with what it holds as far as the library looks at it.
pub enum LuaValue {
    Nil,
    Boolean(bool),
    LightUserData,
    Integer,
    Number,
    Text(mlua::String),
    Table(mlua::Table),
    Function(mlua::Function),
    Thread,
    UserData,
    Error,
    /// A value that the interpreter's binding does not know.
    Other,
}

/// A [`LuaValue`] that borrows what it holds.
pub enum LuaRef<'a> {
    Nil,
    Boolean(bool),
    LightUserData,
    Integer,
    Number,
    Text(&'a mlua::String),
    Table(&'a mlua::Table),
    Function(&'a mlua::Function),
    Thread,
    UserData,
    Error,
    Other,
}

impl<'a> View for LuaRef<'a> {
    type V = LuaValue;

    open spec fn view(&self) -> LuaValue {
        match *self {
            LuaRef::Nil => LuaValue::Nil,
            LuaRef::Boolean(on) => LuaValue::Boolean(on),
            LuaRef::LightUserData => LuaValue::LightUserData,
            LuaRef::Integer => LuaValue::Integer,
            LuaRef::Number => LuaValue::Number,
            LuaRef::Text(text) => LuaValue::Text(*text),
            LuaRef::Table(table) => LuaValue::Table(*table),
            LuaRef::Function(function) => LuaValue::Function(*function),
            LuaRef::Thread => LuaValue::Thread,
            LuaRef::UserData => LuaValue::UserData,
            LuaRef::Error => LuaValue::Error,
            LuaRef::Other => LuaValue::Other,
        }
    }
}

/// The variant of a Lua value, with what it holds.
pub uninterp spec fn lua_variant(value: mlua::Value) -> LuaValue;

/// Tells the variants of `mlua::Value` apart and borrows what they hold.
#[verifier::external_body]
pub(crate) fn variant<'a>(value: &'a Value) -> (sorted: LuaRef<'a>)
    ensures
        sorted@ == lua_variant(*value),
{
    match value {
        Value::Nil => LuaRef::Nil,
        Value::Boolean(on) => LuaRef::Boolean(*on),
        Value::LightUserData(_) => LuaRef::LightUserData,
        Value::Integer(_) => LuaRef::Integer,
        Value::Number(_) => LuaRef::Number,
        Value::String(text) => LuaRef::Text(text),
        Value::Table(table) => LuaRef::Table(table),
        Value::Function(function) => LuaRef::Function(function),
        Value::Thread(_) => LuaRef::Thread,
        Value::UserData(_) => LuaRef::UserData,
        Value::Error(_) => LuaRef::Error,
        Value::Other(_) => LuaRef::Other,
    }
}

/// The name of a value's type.
pub open spec fn kind_of(value: LuaValue) -> Seq<char> {
    match value {
        LuaValue::Nil => "nil"@,
        LuaValue::Boolean(_) => "boolean"@,
        LuaValue::LightUserData => "lightuserdata"@,
        LuaValue::Integer => "integer"@,
        LuaValue::Number => "number"@,
        LuaValue::Text(_) => "string"@,
        LuaValue::Table(_) => "table"@,
        LuaValue::Function(_) => "function"@,
        LuaValue::Thread => "thread"@,
        LuaValue::UserData => "userdata"@,
        LuaValue::Error => "error"@,
        LuaValue::Other => "other"@,
    }
}

/// The name of a value's type, as messages give it.
pub fn kind(value: &LuaRef) -> (name: &'static str)
    ensures
        name@ == kind_of(value@),
{
    match value {
        LuaRef::Nil => "nil",
        LuaRef::Boolean(_) => "boolean",
        LuaRef::LightUserData => "lightuserdata",
        LuaRef::Integer => "integer",
        LuaRef::Number => "number",
        LuaRef::Text(_) => "string",
        LuaRef::Table(_) => "table",
        LuaRef::Function(_) => "function",
        LuaRef::Thread => "thread",
        LuaRef::UserData => "userdata",
        LuaRef::Error => "error",
        LuaRef::Other => "other",
    }
}

/// The text of a runtime error: `Error::runtime` on a message, written out
/// with `to_string`, is `runtime error: ` and the message.
#[verifier::external_body]
pub(crate) fn runtime_error(message: &str) -> (text: String)
    ensures
        text@ == "runtime error: "@ + message@,
{
    mlua::Error::runtime(message).to_string()
}

/// Reads values that live in the interpreter. An `mlua` handle can be read
/// only while its interpreter is alive, so reading is left to the host, which
/// keeps it so. What a read returns depends on the interpreter's state, and
/// nothing is taken for granted of it: what the library makes of a reading is
/// stated for every reading. A failed read gives the error's text.
pub trait LuaReader {
    /// The characters of a Lua string.
    fn text(&self, string: &mlua::String) -> Result<String, String>;

    /// The length of a table's list part, metamethods not consulted.
    fn raw_len(&self, table: &mlua::Table) -> usize;

    /// An element of a table's list part, counted from one.
    fn raw_item(&self, table: &mlua::Table, index: usize) -> Result<mlua::Value, String>;

    /// The field `key` of a table, metamethods not consulted.
    fn field(&self, table: &mlua::Table, key: &str) -> Result<mlua::Value, String>;

    /// The field `key` of a table as a number of cells, if it has one,
    /// metamethods not consulted.
    fn cells_field(&self, table: &mlua::Table, key: &str) -> Result<Option<u16>, String>;

    /// A line in the span grammar.
    fn parse_line(&self, value: &mlua::Value) -> Result<SnapshotLine, String>;
}

} // verus!
