use maki_transcript::lua::LuaReader;
use maki_transcript::parse::{
    parse_result, settle_return, ItemReading, LuaReturn, Marker, RawReading,
};
use maki_transcript::place::RenderObject;
use maki_transcript::render::{
    below, bump_generation, clear_plugin, failed, failure_of, note_raise, raised_failure, refusal, register,
    renderer_generation, set_block_renderer, BlockRender, Generation, Registration, RenderCtx,
    RendererStore, UNKNOWN_PLUGIN,
};
use maki_transcript::snapshot::{SnapshotLine, SnapshotSpan, SpanStyle};
use mlua::{Function, Lua, MultiValue, Table, Value};
use std::sync::{Arc, Mutex};

const PLUGIN: &str = "test";

/// Reads live Lua values. A line is a string, or a table of spans of which
/// each is a string or `{ text, style? }`.
struct Reader;

fn kind_of(value: &Value) -> &'static str {
    match value {
        Value::Nil => "nil",
        Value::Boolean(_) => "boolean",
        Value::Integer(_) => "integer",
        Value::Number(_) => "number",
        Value::String(_) => "string",
        Value::Table(_) => "table",
        Value::Function(_) => "function",
        _ => "other",
    }
}

fn parse_span(value: &Value) -> Result<SnapshotSpan, String> {
    match value {
        Value::String(text) => Ok(SnapshotSpan {
            text: text.to_str().map_err(|e| e.to_string())?.to_owned(),
            style: SpanStyle::Default,
        }),
        Value::Table(parts) => {
            let text: String = parts.raw_get(1).map_err(|e| e.to_string())?;
            let style: Option<String> = parts.raw_get(2).map_err(|e| e.to_string())?;
            Ok(SnapshotSpan {
                text,
                style: style.map_or(SpanStyle::Default, SpanStyle::Named),
            })
        }
        other => Err(format!("span is a {}", kind_of(other))),
    }
}

impl LuaReader for Reader {
    fn text(&self, string: &mlua::String) -> Result<String, String> {
        string
            .to_str()
            .map(|text| text.to_owned())
            .map_err(|e| e.to_string())
    }

    fn raw_len(&self, table: &Table) -> usize {
        table.raw_len()
    }

    fn raw_item(&self, table: &Table, index: usize) -> Result<Value, String> {
        table.raw_get(index).map_err(|e| e.to_string())
    }

    fn field(&self, table: &Table, key: &str) -> Result<Value, String> {
        table.raw_get(key).map_err(|e| e.to_string())
    }

    fn cells_field(&self, table: &Table, key: &str) -> Result<Option<u16>, String> {
        table.raw_get(key).map_err(|e| e.to_string())
    }

    fn parse_line(&self, value: &Value) -> Result<SnapshotLine, String> {
        match value {
            Value::Table(table) => {
                let mut spans = Vec::new();
                for index in 1..=table.raw_len() {
                    let item: Value = table.raw_get(index).map_err(|e| e.to_string())?;
                    spans.push(parse_span(&item)?);
                }
                Ok(SnapshotLine { spans })
            }
            value => Ok(SnapshotLine {
                spans: vec![parse_span(value)?],
            }),
        }
    }
}

/// An interpreter with a renderer registry.
struct Vm {
    lua: Lua,
    store: RendererStore,
    generation: Generation,
}

fn lua_with_store() -> Vm {
    Vm {
        lua: Lua::new(),
        store: RendererStore::default(),
        generation: Generation { count: 0 },
    }
}

fn function(vm: &Vm, source: &str) -> Function {
    vm.lua.load(source).eval().expect("valid renderer")
}

fn add(vm: &mut Vm, plugin: &str, source: &str) {
    let func = function(vm, source);
    let key = vm.lua.create_registry_value(func).expect("registry key");
    vm.store.set(Arc::from(plugin), key);
}

/// Registers or clears a renderer the way a plugin asks for it.
fn ask(vm: &mut Vm, plugin: &Arc<str>, value: &Value) -> Result<(), String> {
    match set_block_renderer(value) {
        Registration::Clear => {
            if let Some(key) = clear_plugin(&mut vm.store, &mut vm.generation, plugin) {
                vm.lua.remove_registry_value(key).expect("registry value");
            }
            Ok(())
        }
        Registration::Register(func) => {
            let key = vm
                .lua
                .create_registry_value(func.clone())
                .expect("registry key");
            let replaced = register(&mut vm.store, &mut vm.generation, Arc::clone(plugin), key);
            if let Some(key) = replaced {
                vm.lua.remove_registry_value(key).expect("registry value");
            }
            Ok(())
        }
        Registration::Refused(message) => Err(message),
    }
}

type Raised = Arc<Mutex<Option<Arc<str>>>>;

fn chain(
    lua: &Lua,
    funcs: Arc<Vec<(Arc<str>, Function)>>,
    index: Option<usize>,
    raised: Raised,
) -> Function {
    let Some(index) = index else {
        return lua
            .create_function(|_, _: MultiValue| Ok(Value::Nil))
            .expect("host default");
    };
    lua.create_function(move |lua, (block, ctx): (Value, Value)| {
        let prev = chain(lua, Arc::clone(&funcs), below(index), Arc::clone(&raised));
        let (plugin, func) = &funcs[index];
        func.call::<Value>((prev, block, ctx)).inspect_err(|_| {
            let mut first = raised.lock().expect("raised");
            *first = note_raise(first.take(), plugin);
        })
    })
    .expect("layer")
}

fn render(vm: &Vm, kind: &str) -> BlockRender {
    let Some(outermost) = vm.store.outermost() else {
        return BlockRender::Unhandled;
    };
    let block = vm.lua.create_table().expect("block");
    block.set("kind", kind).expect("kind");
    let ctx = RenderCtx {
        width: 40,
        mode: Arc::from("build"),
        theme_gen: 1,
    };
    let table = vm.lua.create_table().expect("ctx");
    table.set("width", ctx.width).expect("width");
    table.set("mode", &*ctx.mode).expect("mode");
    table.set("theme_gen", ctx.theme_gen).expect("theme_gen");
    let funcs: Vec<(Arc<str>, Function)> = (0..=outermost)
        .map(|index| {
            let layer = vm.store.layer(index);
            let func = vm.lua.registry_value(&layer.key).expect("renderer");
            (Arc::clone(&layer.plugin), func)
        })
        .collect();
    let raised: Raised = Arc::default();
    let renderer = chain(&vm.lua, Arc::new(funcs), Some(outermost), Arc::clone(&raised));
    match renderer.call::<Value>((block, table)) {
        Ok(value) => parse_result(&value, &Reader),
        Err(error) => {
            let first = raised.lock().expect("raised").clone();
            raised_failure(first, error.to_string())
        }
    }
}

fn failure(result: BlockRender) -> (Arc<str>, String) {
    match result {
        BlockRender::Failed { plugin, message } => (plugin, message),
        other => panic!("expected failure, got {other:?}"),
    }
}

fn objects(result: BlockRender) -> Vec<RenderObject> {
    match result {
        BlockRender::Objects(objects) => objects,
        other => panic!("expected objects, got {other:?}"),
    }
}

fn lines(objects: &[RenderObject]) -> Vec<String> {
    objects
        .iter()
        .map(|object| match object {
            RenderObject::Lines { lines, .. } => lines
                .iter()
                .map(|line| {
                    line.spans
                        .iter()
                        .map(|span| span.text.as_str())
                        .collect::<String>()
                })
                .collect::<Vec<_>>()
                .join("\n"),
            RenderObject::Raw { seq, .. } => seq.clone(),
            RenderObject::ToolBody => "[tool]".to_owned(),
            RenderObject::InstructionsBody => "[instructions]".to_owned(),
        })
        .collect()
}

#[test]
fn tool_body_marker_parses_as_an_object() {
    let mut vm = lua_with_store();
    add(
        &mut vm,
        PLUGIN,
        "function(prev, block, ctx) return { { tool = true } } end",
    );
    assert_eq!(
        render(&vm, "tool"),
        BlockRender::Objects(vec![RenderObject::ToolBody])
    );
}

#[test]
fn a_bare_tool_body_marker_parses() {
    let mut vm = lua_with_store();
    add(
        &mut vm,
        PLUGIN,
        "function(prev, block, ctx) return { tool = true } end",
    );
    assert_eq!(
        render(&vm, "tool"),
        BlockRender::Objects(vec![RenderObject::ToolBody])
    );
}

#[test]
fn tool_body_composes_with_surrounding_lines() {
    let mut vm = lua_with_store();
    add(
        &mut vm,
        PLUGIN,
        "function(prev, block, ctx) return { 'above', { tool = true }, 'below' } end",
    );
    let objects = objects(render(&vm, "tool"));
    assert_eq!(objects.len(), 3);
    assert_eq!(objects[1], RenderObject::ToolBody);
}

#[test]
fn unhandled_when_no_layers() {
    let vm = lua_with_store();
    assert_eq!(render(&vm, "user"), BlockRender::Unhandled);
}

#[test]
fn single_layer_returns_lines() {
    let mut vm = lua_with_store();
    add(
        &mut vm,
        PLUGIN,
        "function(prev, block, ctx) return { 'hello' } end",
    );
    assert_eq!(lines(&objects(render(&vm, "user"))), vec!["hello"]);
}

#[test]
fn outer_wrapper_delegates_to_prev() {
    let mut vm = lua_with_store();
    add(
        &mut vm,
        "inner",
        "function(prev, block, ctx) return { 'inner' } end",
    );
    add(
        &mut vm,
        "outer",
        r#"function(prev, block, ctx)
             local out = prev(block, ctx)
             out[#out + 1] = 'outer'
             return out
           end"#,
    );
    assert_eq!(lines(&objects(render(&vm, "user"))), vec!["inner", "outer"]);
}

#[test]
fn last_registered_wins_without_prev() {
    let mut vm = lua_with_store();
    add(
        &mut vm,
        "inner",
        "function(prev, block, ctx) return { 'inner' } end",
    );
    add(
        &mut vm,
        "outer",
        "function(prev, block, ctx) return { 'outer' } end",
    );
    assert_eq!(lines(&objects(render(&vm, "user"))), vec!["outer"]);
}

#[test]
fn callback_returning_nil_is_unhandled() {
    let mut vm = lua_with_store();
    add(
        &mut vm,
        PLUGIN,
        "function(prev, block, ctx) return prev(block, ctx) end",
    );
    assert_eq!(render(&vm, "user"), BlockRender::Unhandled);
}

#[test]
fn raw_object_parses() {
    let mut vm = lua_with_store();
    add(
        &mut vm,
        PLUGIN,
        r#"function(prev, block, ctx)
             return { { raw = "\27_G", width = 2, height = 1 } }
           end"#,
    );
    assert_eq!(
        objects(render(&vm, "user")),
        vec![RenderObject::Raw {
            seq: "\u{1b}_G".to_owned(),
            width: 2,
            height: 1,
        }]
    );
}

#[test]
fn multi_span_line_parses() {
    let mut vm = lua_with_store();
    add(
        &mut vm,
        PLUGIN,
        r#"function(prev, block, ctx)
             return { { { 'a', 'bold' }, { 'b' } } }
           end"#,
    );
    let objects = objects(render(&vm, "user"));
    let RenderObject::Lines { lines, .. } = &objects[0] else {
        panic!("expected lines");
    };
    assert_eq!(lines[0].spans.len(), 2);
    assert_eq!(lines[0].spans[0].text, "a");
    assert_eq!(lines[0].spans[1].text, "b");
}

#[test]
fn ctx_and_block_reach_the_callback() {
    let mut vm = lua_with_store();
    add(
        &mut vm,
        PLUGIN,
        r#"function(prev, block, ctx)
             return { ctx.width .. ' ' .. block.kind .. ' ' .. ctx.mode }
           end"#,
    );
    assert_eq!(lines(&objects(render(&vm, "tool"))), vec!["40 tool build"]);
}

#[test]
fn raising_layer_becomes_failed_and_is_attributed() {
    let mut vm = lua_with_store();
    add(
        &mut vm,
        PLUGIN,
        "function(prev, block, ctx) error('boom') end",
    );
    let (plugin, message) = failure(render(&vm, "user"));
    assert_eq!(&*plugin, PLUGIN);
    assert!(message.contains("boom"));
}

#[test]
fn inner_raise_is_attributed_over_the_wrapper() {
    let mut vm = lua_with_store();
    add(
        &mut vm,
        "inner",
        "function(prev, block, ctx) error('inner boom') end",
    );
    add(
        &mut vm,
        "outer",
        "function(prev, block, ctx) return prev(block, ctx) end",
    );
    let (plugin, message) = failure(render(&vm, "user"));
    assert_eq!(&*plugin, "inner");
    assert!(message.contains("inner boom"));
}

#[test]
fn outer_raise_is_attributed_to_the_outer_layer() {
    let mut vm = lua_with_store();
    add(
        &mut vm,
        "inner",
        "function(prev, block, ctx) return { 'inner' } end",
    );
    add(
        &mut vm,
        "outer",
        "function(prev, block, ctx) prev(block, ctx); error('outer boom') end",
    );
    let (plugin, message) = failure(render(&vm, "user"));
    assert_eq!(&*plugin, "outer");
    assert!(message.contains("outer boom"));
}

fn malformed(source: &str) -> String {
    let mut vm = lua_with_store();
    add(
        &mut vm,
        PLUGIN,
        &format!("function(prev, block, ctx) {source} end"),
    );
    let result = render(&vm, "user");
    assert!(matches!(result, BlockRender::Failed { .. }));
    let (plugin, message) = failure(result);
    assert_eq!(&*plugin, UNKNOWN_PLUGIN);
    message
}

#[test]
fn malformed_output_fails_integer_item() {
    assert_eq!(
        malformed("return { { { 'a', 'bold' }, { 'b' } }, 1 }"),
        "runtime error: render object must be a string, a line, or {raw = ...}, got integer"
    );
}

#[test]
fn malformed_output_fails_non_line_value() {
    assert_eq!(
        malformed("return 42"),
        "block renderer returned integer, expected a list of lines or {raw = ...}"
    );
}

#[test]
fn malformed_output_fails_true() {
    assert_eq!(
        malformed("return true"),
        "block renderer returned boolean, expected a list of lines or {raw = ...}"
    );
}

#[test]
fn malformed_output_fails_function() {
    assert_eq!(
        malformed("return function() end"),
        "block renderer returned function, expected a list of lines or {raw = ...}"
    );
}

#[test]
fn malformed_output_fails_text_that_is_not_utf8() {
    assert!(malformed("return '\\255'").contains("utf-8"));
}

#[test]
fn malformed_output_fails_raw_width() {
    assert!(malformed("return { raw = 'x', width = -1 }").contains("u16"));
    assert!(malformed("return { raw = 'x', height = {} }").contains("u16"));
}

#[test]
fn a_returned_string_is_one_line() {
    let mut vm = lua_with_store();
    add(&mut vm, PLUGIN, "function() return 'plain' end");
    assert_eq!(
        objects(render(&vm, "user")),
        vec![RenderObject::Lines {
            lines: vec![SnapshotLine::plain("plain".to_owned())],
            decorations: Vec::new(),
        }]
    );
}

#[test]
fn false_leaves_the_block_to_the_host() {
    let mut vm = lua_with_store();
    add(&mut vm, PLUGIN, "function() return false end");
    assert_eq!(render(&vm, "user"), BlockRender::Unhandled);
}

#[test]
fn a_raw_request_outranks_a_tool_marker() {
    let mut vm = lua_with_store();
    add(
        &mut vm,
        PLUGIN,
        "function() return { raw = 'x', tool = true } end",
    );
    assert_eq!(
        objects(render(&vm, "user")),
        vec![RenderObject::Raw {
            seq: "x".to_owned(),
            width: 0,
            height: 0
        }]
    );
}

#[test]
fn a_tool_field_that_is_not_true_is_no_marker() {
    let mut vm = lua_with_store();
    add(
        &mut vm,
        PLUGIN,
        "function() return { tool = 'yes', raw = 3, 'line' } end",
    );
    assert_eq!(lines(&objects(render(&vm, "user"))), vec!["line"]);
}

#[test]
fn an_empty_list_is_an_empty_render() {
    let mut vm = lua_with_store();
    add(&mut vm, PLUGIN, "function() return {} end");
    assert_eq!(render(&vm, "user"), BlockRender::Objects(Vec::new()));
}

#[test]
fn the_first_bad_element_names_the_failure() {
    let items = vec![
        ItemReading::Line(Ok(SnapshotLine::plain("a".to_owned()))),
        ItemReading::Line(Err("bad line".to_owned())),
        ItemReading::Unreadable("later".to_owned()),
    ];
    let (plugin, message) = failure(settle_return(LuaReturn::List(items)));
    assert_eq!(&*plugin, UNKNOWN_PLUGIN);
    assert_eq!(message, "bad line");
}

#[test]
fn a_raw_request_fails_on_its_first_bad_part() {
    let raw = RawReading {
        seq: Err("seq".to_owned()),
        width: Err("width".to_owned()),
        height: Ok(None),
    };
    let (_, message) = failure(settle_return(LuaReturn::Marked(Marker::Raw(raw))));
    assert_eq!(message, "seq");
}

#[test]
fn set_block_renderer_replaces_previous() {
    let mut vm = lua_with_store();
    let plugin: Arc<str> = Arc::from(PLUGIN);
    for text in ["first", "second"] {
        let func = function(
            &vm,
            &format!("function(prev, block, ctx) return {{ '{text}' }} end"),
        );
        ask(&mut vm, &plugin, &Value::Function(func)).expect("register");
    }
    assert_eq!(vm.store.outermost(), Some(0));
    assert_eq!(lines(&objects(render(&vm, "user"))), vec!["second"]);
}

#[test]
fn clear_plugin_unregisters() {
    let mut vm = lua_with_store();
    let plugin: Arc<str> = Arc::from(PLUGIN);
    let func = function(&vm, "function(prev, block, ctx) return { 'x' } end");
    ask(&mut vm, &plugin, &Value::Function(func)).expect("register");
    ask(&mut vm, &plugin, &Value::Nil).expect("clear");
    assert_eq!(render(&vm, "user"), BlockRender::Unhandled);
}

#[test]
fn generation_advances_on_set_and_clear() {
    let mut vm = lua_with_store();
    let plugin: Arc<str> = Arc::from(PLUGIN);
    let before = renderer_generation(&vm.generation);
    let func = function(&vm, "function(prev, block, ctx) return { 'x' } end");
    ask(&mut vm, &plugin, &Value::Function(func)).expect("register");
    let after = renderer_generation(&vm.generation);
    assert!(after > before);
    ask(&mut vm, &plugin, &Value::Nil).expect("clear");
    assert!(renderer_generation(&vm.generation) > after);
}

#[test]
fn clearing_nothing_keeps_the_generation() {
    let mut vm = lua_with_store();
    let plugin: Arc<str> = Arc::from(PLUGIN);
    ask(&mut vm, &plugin, &Value::Nil).expect("clear");
    assert_eq!(renderer_generation(&vm.generation), 0);
}

#[test]
fn the_generation_wraps_around() {
    let mut generation = Generation { count: u64::MAX };
    bump_generation(&mut generation);
    assert_eq!(renderer_generation(&generation), 0);
}

#[test]
fn set_block_renderer_rejects_non_function() {
    let mut vm = lua_with_store();
    let plugin: Arc<str> = Arc::from(PLUGIN);
    assert!(ask(&mut vm, &plugin, &Value::Integer(1)).is_err());
    assert_eq!(
        ask(&mut vm, &plugin, &Value::Integer(1)),
        Err("set_block_renderer expects a function or nil, got integer".to_owned())
    );
    assert_eq!(
        refusal("table"),
        "set_block_renderer expects a function or nil, got table"
    );
}

#[test]
fn registering_again_moves_a_plugin_outermost() {
    let mut vm = lua_with_store();
    add(&mut vm, "a", "function() return { 'a1' } end");
    add(&mut vm, "b", "function() return { 'b' } end");
    add(&mut vm, "a", "function() return { 'a2' } end");
    assert_eq!(vm.store.outermost(), Some(1));
    assert_eq!(&*vm.store.layer(0).plugin, "b");
    assert_eq!(&*vm.store.layer(1).plugin, "a");
    assert_eq!(lines(&objects(render(&vm, "user"))), vec!["a2"]);
    assert!(vm.store.clear_plugin("b").is_some());
    assert!(vm.store.clear_plugin("b").is_none());
    assert_eq!(&*vm.store.layer(0).plugin, "a");
}

#[test]
fn a_failure_without_a_layer_is_unattributed() {
    assert_eq!(
        failure(failed("m".to_owned())),
        (Arc::from(UNKNOWN_PLUGIN), "m".to_owned())
    );
    assert_eq!(
        failure(raised_failure(None, "m".to_owned())),
        (Arc::from(UNKNOWN_PLUGIN), "m".to_owned())
    );
    assert_eq!(
        failure(raised_failure(Some(Arc::from("p")), "m".to_owned())),
        (Arc::from("p"), "m".to_owned())
    );
}

#[test]
fn the_first_layer_that_raised_is_kept() {
    let inner: Arc<str> = Arc::from("inner");
    let outer: Arc<str> = Arc::from("outer");
    let noted = note_raise(None, &inner);
    let noted = note_raise(noted, &outer);
    assert_eq!(noted, Some(inner));
}

#[test]
fn malformed_output_fails_naming_the_type() {
    for (source, name) in [
        ("return 1.5", "number"),
        ("return coroutine.create(function() end)", "thread"),
        ("return io.stdout", "userdata"),
    ] {
        assert_eq!(
            malformed(source),
            format!("block renderer returned {name}, expected a list of lines or {{raw = ...}}")
        );
    }
    for (value, name) in [
        (Value::Boolean(true), "boolean"),
        (Value::NULL, "lightuserdata"),
        (Value::Number(0.5), "number"),
        (Value::Error(Box::new(mlua::Error::StackError)), "error"),
    ] {
        assert!(matches!(
            set_block_renderer(&value),
            Registration::Refused(message)
                if message == format!("set_block_renderer expects a function or nil, got {name}")
        ));
    }
}

#[test]
fn only_a_failure_is_reported() {
    assert!(failure_of(&BlockRender::Unhandled).is_none());
    assert!(failure_of(&BlockRender::Objects(vec![RenderObject::ToolBody])).is_none());
    let render = raised_failure(Some(Arc::from("p")), "m".to_owned());
    let (plugin, message) = failure_of(&render).expect("failure");
    assert_eq!((&**plugin, message), ("p", "m"));
}
