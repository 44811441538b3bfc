//! What a renderer chain is asked with and what it answers, and the registry
//! of renderers with its generation.

use crate::lua::{kind, kind_of, lua_variant, variant, LuaRef, LuaValue};
use crate::place::{ObjectView, RenderObject};
use crate::text::{same_text, shared};
use std::sync::Arc;
use vstd::prelude::*;

verus! {

/// What a caller is told when the interpreter holds no renderer registry.
pub const RENDER_STORE_MISSING: &'static str = "renderer store not installed";

/// Event fired when a block renderer raises, carrying the plugin and the
/// message. The message stays out of the transcript and every model-facing
/// surface.
pub const RENDERER_ERROR_EVENT: &'static str = "RendererError";

/// Attribution for a renderer failure no layer could be tied to.
pub const UNKNOWN_PLUGIN: &'static str = "<unknown>";

/// Counts changes to the renderer registry.
#[derive(Debug)]
pub struct Generation {
    pub count: u64,
}

impl Default for Generation {
    fn default() -> (generation: Self)
        ensures
            generation.count == 0,
    {
        Generation { count: 0 }
    }
}

/// Count of renderer registry changes. Render keys carry it so a block
/// rendered before a plugin registered, unloaded, or replaced its renderer is
/// retried, and a reply from the former chain is refused.
pub fn renderer_generation(generation: &Generation) -> (count: u64)
    ensures
        count == generation.count,
{
    generation.count
}

/// The generation after this one.
pub open spec fn next_generation(count: u64) -> u64 {
    if count == u64::MAX {
        0
    } else {
        (count + 1) as u64
    }
}

/// Moves to the next generation.
pub fn bump_generation(generation: &mut Generation)
    ensures
        final(generation).count == next_generation(old(generation).count),
{
    generation.count = generation.count.wrapping_add(1);
}

/// Per-render context. `width` is the content width in cells. Blocks are
/// height-unbounded, so scrolling never re-renders.
#[derive(Debug, PartialEq, Eq)]
pub struct RenderCtx {
    pub width: u16,
    pub mode: Arc<str>,
    pub theme_gen: u64,
}

impl Clone for RenderCtx {
    fn clone(&self) -> (copy: Self)
        ensures
            copy == *self,
    {
        RenderCtx { width: self.width, mode: self.mode.clone(), theme_gen: self.theme_gen }
    }
}

/// What a block renderer chain produced.
#[derive(Debug, PartialEq)]
pub enum BlockRender {
    /// No layer claimed the block, so the caller's own renderer applies.
    Unhandled,
    Objects(Vec<RenderObject>),
    /// A layer raised, so the caller keeps its previous frame. `plugin` names
    /// the innermost layer that raised, or [`UNKNOWN_PLUGIN`] when none could
    /// be attributed.
    Failed { plugin: Arc<str>, message: String },
}

/// What a [`BlockRender`] holds.
#[verifier::ext_equal]
pub enum RenderView {
    Unhandled,
    Objects(Seq<ObjectView>),
    Failed { plugin: Seq<char>, message: Seq<char> },
}

/// The contents of a run of render objects.
pub open spec fn object_views(objects: Seq<RenderObject>) -> Seq<ObjectView> {
    objects.map_values(|object: RenderObject| object@)
}

impl View for BlockRender {
    type V = RenderView;

    open spec fn view(&self) -> RenderView {
        match *self {
            BlockRender::Unhandled => RenderView::Unhandled,
            BlockRender::Objects(objects) => RenderView::Objects(object_views(objects@)),
            BlockRender::Failed { plugin, message } => RenderView::Failed {
                plugin: (*plugin)@,
                message: message@,
            },
        }
    }
}

/// A failure with no layer to attribute it to.
pub open spec fn unattributed(message: Seq<char>) -> RenderView {
    RenderView::Failed { plugin: "<unknown>"@, message }
}

/// A failure with no layer to attribute it to.
pub fn failed(message: String) -> (render: BlockRender)
    ensures
        render@ == unattributed(message@),
{
    BlockRender::Failed { plugin: shared(UNKNOWN_PLUGIN), message }
}

/// What a render has to report: a failure's plugin and message, and nothing
/// otherwise.
pub fn failure_of(render: &BlockRender) -> (failure: Option<(&Arc<str>, &str)>)
    ensures
        match render@ {
            RenderView::Failed { plugin, message } => failure matches Some((by, text)) && (**by)@
                == plugin && text@ == message,
            _ => failure is None,
        },
{
    match render {
        BlockRender::Failed { plugin, message } => Some((plugin, message.as_str())),
        _ => None,
    }
}

/// The layer a raise is tied to, after one more layer saw the error pass.
pub open spec fn noted(raised: Option<Arc<str>>, plugin: Arc<str>) -> Option<Arc<str>> {
    match raised {
        Some(first) => Some(first),
        None => Some(plugin),
    }
}

/// The layer a raise is tied to, after the error passed all of `plugins`, the
/// first of them first.
pub open spec fn noted_all(plugins: Seq<Arc<str>>) -> Option<Arc<str>>
    decreases plugins.len(),
{
    if plugins.len() == 0 {
        None
    } else {
        noted(noted_all(plugins.drop_last()), plugins.last())
    }
}

/// The innermost layer that raised wins over the wrappers the error
/// propagates through.
pub proof fn the_innermost_raise_wins(plugins: Seq<Arc<str>>)
    requires
        plugins.len() > 0,
    ensures
        noted_all(plugins) == Some(plugins[0]),
    decreases plugins.len(),
{
    if plugins.len() > 1 {
        the_innermost_raise_wins(plugins.drop_last());
    } else {
        assert(noted_all(plugins.drop_last()) is None);
    }
}

/// The layer a raise is tied to, after one more layer saw the error pass: the
/// first one keeps it, so the innermost layer that raised wins over the
/// wrappers the error propagates through.
pub fn note_raise(raised: Option<Arc<str>>, plugin: &Arc<str>) -> (after: Option<Arc<str>>)
    ensures
        after == noted(raised, *plugin),
{
    match raised {
        Some(first) => Some(first),
        None => Some(plugin.clone()),
    }
}

/// The failure of a chain that raised: tied to the layer that was noted, if
/// one was.
pub fn raised_failure(raised: Option<Arc<str>>, message: String) -> (render: BlockRender)
    ensures
        render@ == match raised {
            Some(plugin) => RenderView::Failed { plugin: (*plugin)@, message: message@ },
            None => unattributed(message@),
        },
{
    match raised {
        Some(plugin) => BlockRender::Failed { plugin, message },
        None => failed(message),
    }
}

/// One registered renderer.
pub struct Layer {
    pub plugin: Arc<str>,
    pub key: mlua::RegistryKey,
}

/// What a [`Layer`] holds.
pub struct LayerView {
    pub plugin: Seq<char>,
    pub key: mlua::RegistryKey,
}

impl View for Layer {
    type V = LayerView;

    open spec fn view(&self) -> LayerView {
        LayerView { plugin: (*self.plugin)@, key: self.key }
    }
}

/// Registered block renderers in load order. The last entry is the
/// outermost layer and sees every block first.
pub struct RendererStore {
    layers: Vec<Layer>,
}

impl View for RendererStore {
    type V = Seq<LayerView>;

    closed spec fn view(&self) -> Seq<LayerView> {
        self.layers@.map_values(|layer: Layer| layer@)
    }
}

/// Where a plugin's layer is: the first position that is its own, or the end.
pub open spec fn layer_index(layers: Seq<LayerView>, plugin: Seq<char>, from: int) -> int
    decreases layers.len() - from,
{
    if 0 <= from < layers.len() && layers[from].plugin != plugin {
        layer_index(layers, plugin, from + 1)
    } else {
        from
    }
}

/// Whether a plugin has a layer.
pub open spec fn has_layer(layers: Seq<LayerView>, plugin: Seq<char>) -> bool {
    layer_index(layers, plugin, 0) < layers.len()
}

/// The layers without a plugin's own, in the order they had.
pub open spec fn without(layers: Seq<LayerView>, plugin: Seq<char>) -> Seq<LayerView> {
    if has_layer(layers, plugin) {
        layers.remove(layer_index(layers, plugin, 0))
    } else {
        layers
    }
}

/// The key of a plugin's layer, if it has one.
pub open spec fn layer_key(layers: Seq<LayerView>, plugin: Seq<char>) -> Option<mlua::RegistryKey> {
    if has_layer(layers, plugin) {
        Some(layers[layer_index(layers, plugin, 0)].key)
    } else {
        None
    }
}

/// No plugin has two layers.
pub open spec fn one_layer_each(layers: Seq<LayerView>) -> bool {
    forall|i: int, j: int|
        0 <= i < j < layers.len() ==> (#[trigger] layers[i]).plugin != (#[trigger] layers[j]).plugin
}

pub(crate) proof fn layer_index_bounds(layers: Seq<LayerView>, plugin: Seq<char>, from: int)
    requires
        0 <= from <= layers.len(),
    ensures
        from <= layer_index(layers, plugin, from) <= layers.len(),
        layer_index(layers, plugin, from) < layers.len() ==> layers[layer_index(
            layers,
            plugin,
            from,
        )].plugin == plugin,
        forall|k: int|
            from <= k < layer_index(layers, plugin, from) ==> (#[trigger] layers[k]).plugin
                != plugin,
    decreases layers.len() - from,
{
    if from < layers.len() && layers[from].plugin != plugin {
        layer_index_bounds(layers, plugin, from + 1);
    }
}

/// With one layer each, clearing a plugin leaves it none.
proof fn without_leaves_none(layers: Seq<LayerView>, plugin: Seq<char>)
    requires
        one_layer_each(layers),
    ensures
        one_layer_each(without(layers, plugin)),
        forall|k: int|
            0 <= k < without(layers, plugin).len() ==> (#[trigger] without(
                layers,
                plugin,
            )[k]).plugin != plugin,
{
    layer_index_bounds(layers, plugin, 0);
    let at = layer_index(layers, plugin, 0);
    let rest = without(layers, plugin);
    if at < layers.len() {
        assert forall|k: int| 0 <= k < rest.len() implies (#[trigger] rest[k]).plugin != plugin by {
            if k < at {
                assert(rest[k] == layers[k]);
            } else {
                assert(rest[k] == layers[k + 1]);
                assert(layers[at].plugin != layers[k + 1].plugin);
            }
        }
        assert forall|i: int, j: int| 0 <= i < j < rest.len() implies (
        #[trigger] rest[i]).plugin != (#[trigger] rest[j]).plugin by {
            let a = if i < at {
                i
            } else {
                i + 1
            };
            let b = if j < at {
                j
            } else {
                j + 1
            };
            assert(rest[i] == layers[a]);
            assert(rest[j] == layers[b]);
        }
    }
}

impl RendererStore {
    /// No plugin has two layers.
    pub open spec fn wf(&self) -> bool {
        one_layer_each(self@)
    }

    /// The layer that sees a block first: the last to register. `None` when
    /// there is no layer, which leaves the block to the host.
    pub fn outermost(&self) -> (index: Option<usize>)
        ensures
            match index {
                Some(index) => index == self@.len() - 1,
                None => self@.len() == 0,
            },
    {
        if self.layers.len() == 0 {
            None
        } else {
            Some(self.layers.len() - 1)
        }
    }

    /// A layer, counted from the innermost.
    pub fn layer(&self, index: usize) -> (layer: &Layer)
        requires
            index < self@.len(),
        ensures
            layer@ == self@[index as int],
    {
        &self.layers[index]
    }

    /// Registers `key` for `plugin` as the outermost layer, replacing any
    /// previous one. Answers the replaced key so the caller can drop its
    /// registry value.
    pub fn set(&mut self, plugin: Arc<str>, key: mlua::RegistryKey) -> (replaced: Option<
        mlua::RegistryKey,
    >)
        requires
            old(self).wf(),
        ensures
            final(self).wf(),
            replaced == layer_key(old(self)@, (*plugin)@),
            final(self)@ == without(old(self)@, (*plugin)@).push(
                LayerView { plugin: (*plugin)@, key },
            ),
    {
        let ghost before = self@;
        let replaced = self.clear_plugin(&*plugin);
        let layer = Layer { plugin, key };
        self.layers.push(layer);
        proof {
            without_leaves_none(before, layer@.plugin);
            assert(self@ =~= without(before, layer@.plugin).push(layer@));
        }
        replaced
    }

    /// Removes `plugin`'s renderer, answering its key for cleanup.
    pub fn clear_plugin(&mut self, plugin: &str) -> (removed: Option<mlua::RegistryKey>)
        requires
            old(self).wf(),
        ensures
            final(self).wf(),
            removed == layer_key(old(self)@, plugin@),
            final(self)@ == without(old(self)@, plugin@),
    {
        let ghost before = self@;
        proof {
            without_leaves_none(before, plugin@);
        }
        let mut i: usize = 0;
        while i < self.layers.len()
            invariant
                before == old(self)@,
                self@ == before,
                one_layer_each(without(before, plugin@)),
                i <= self.layers@.len(),
                layer_index(before, plugin@, i as int) == layer_index(before, plugin@, 0),
            decreases self.layers@.len() - i,
        {
            assert(before[i as int] == self.layers@[i as int]@);
            if same_text(&*self.layers[i].plugin, plugin) {
                let layer = self.layers.remove(i);
                assert(self@ =~= before.remove(i as int));
                return Some(layer.key);
            }
            i += 1;
        }
        None
    }
}

impl Default for RendererStore {
    fn default() -> (store: Self)
        ensures
            store.wf(),
            store@ == Seq::<LayerView>::empty(),
    {
        let store = RendererStore { layers: Vec::new() };
        assert(store@ =~= Seq::<LayerView>::empty());
        store
    }
}

/// The layer a layer's `prev` runs: the next one down. `None` for the
/// innermost layer, whose `prev` is the host default.
pub fn below(index: usize) -> (next: Option<usize>)
    ensures
        match next {
            Some(next) => next + 1 == index,
            None => index == 0,
        },
{
    if index == 0 {
        None
    } else {
        Some(index - 1)
    }
}

/// Registers a plugin's renderer, as the outermost layer. Answers the
/// replaced key so the caller can drop its registry value.
pub fn register(
    store: &mut RendererStore,
    generation: &mut Generation,
    plugin: Arc<str>,
    key: mlua::RegistryKey,
) -> (replaced: Option<mlua::RegistryKey>)
    requires
        old(store).wf(),
    ensures
        final(store).wf(),
        replaced == layer_key(old(store)@, (*plugin)@),
        final(store)@ == without(old(store)@, (*plugin)@).push(
            LayerView { plugin: (*plugin)@, key },
        ),
        final(generation).count == next_generation(old(generation).count),
{
    let replaced = store.set(plugin, key);
    bump_generation(generation);
    replaced
}

/// Clears `plugin`'s renderer, answering its key so the caller can drop its
/// registry value. Shared by unload and failed-load rollback. The generation
/// moves on only where there was a renderer to clear.
pub fn clear_plugin(
    store: &mut RendererStore,
    generation: &mut Generation,
    plugin: &str,
) -> (removed: Option<mlua::RegistryKey>)
    requires
        old(store).wf(),
    ensures
        final(store).wf(),
        removed == layer_key(old(store)@, plugin@),
        final(store)@ == without(old(store)@, plugin@),
        final(generation).count == if has_layer(old(store)@, plugin@) {
            next_generation(old(generation).count)
        } else {
            old(generation).count
        },
{
    let removed = store.clear_plugin(plugin);
    if removed.is_some() {
        bump_generation(generation);
    }
    removed
}

/// What a plugin asks for when it registers a value as its renderer.
pub enum Registration<'a> {
    /// `nil`: clear the plugin's renderer.
    Clear,
    /// A function: make it the plugin's renderer.
    Register(&'a mlua::Function),
    /// Anything else is refused, with a message that names its type.
    Refused(String),
}

/// What a plugin asks for when it registers `value`: a function is its
/// renderer, `nil` clears it, and anything else is refused.
pub fn set_block_renderer<'a>(value: &'a mlua::Value) -> (asked: Registration<'a>)
    ensures
        match lua_variant(*value) {
            LuaValue::Nil => asked is Clear,
            LuaValue::Function(function) => asked == Registration::Register(&function),
            other => asked matches Registration::Refused(message) && message@
                == "set_block_renderer expects a function or nil, got "@ + kind_of(other),
        },
{
    match variant(value) {
        LuaRef::Nil => Registration::Clear,
        LuaRef::Function(function) => Registration::Register(function),
        other => Registration::Refused(refusal(kind(&other))),
    }
}

/// The message that refuses a value of the given type.
pub fn refusal(name: &str) -> (message: String)
    ensures
        message@ == "set_block_renderer expects a function or nil, got "@ + name@,
{
    let mut message = "set_block_renderer expects a function or nil, got ".to_owned();
    message.append(name);
    message
}

/// Every registration moves to another generation.
pub proof fn a_registration_changes_the_generation(count: u64)
    ensures
        next_generation(count) != count,
        count < u64::MAX ==> next_generation(count) > count,
{
}

/// The last plugin to register is outermost, and the only layer it has is the
/// one it registered last.
pub proof fn the_last_to_register_is_outermost(
    layers: Seq<LayerView>,
    plugin: Seq<char>,
    key: mlua::RegistryKey,
)
    requires
        one_layer_each(layers),
    ensures
        ({
            let after = without(layers, plugin).push(LayerView { plugin, key });
            &&& after.last() == (LayerView { plugin, key })
            &&& layer_key(after, plugin) == Some(key)
            &&& one_layer_each(after)
        }),
{
    let rest = without(layers, plugin);
    let after = rest.push(LayerView { plugin, key });
    without_leaves_none(layers, plugin);
    layer_index_bounds(after, plugin, 0);
    let at = layer_index(after, plugin, 0);
    if at < rest.len() {
        assert(after[at] == rest[at]);
    } else if at == after.len() {
        assert(after[rest.len() as int].plugin == plugin);
    }
}

/// Registering and then clearing leaves the other plugins' layers as they
/// were, in their order.
pub proof fn clearing_undoes_registering(
    layers: Seq<LayerView>,
    plugin: Seq<char>,
    key: mlua::RegistryKey,
)
    requires
        one_layer_each(layers),
    ensures
        without(without(layers, plugin).push(LayerView { plugin, key }), plugin) == without(
            layers,
            plugin,
        ),
        !has_layer(without(layers, plugin), plugin),
{
    let rest = without(layers, plugin);
    let after = rest.push(LayerView { plugin, key });
    without_leaves_none(layers, plugin);
    layer_index_bounds(after, plugin, 0);
    layer_index_bounds(rest, plugin, 0);
    let at = layer_index(after, plugin, 0);
    if at < rest.len() {
        assert(after[at] == rest[at]);
    } else if at == after.len() {
        assert(after[rest.len() as int].plugin == plugin);
    }
    assert(after.remove(rest.len() as int) =~= rest);
}

/// Registering or clearing a plugin touches no other plugin's layer.
pub proof fn other_plugins_keep_their_layers(
    layers: Seq<LayerView>,
    plugin: Seq<char>,
    key: mlua::RegistryKey,
    other: Seq<char>,
)
    requires
        one_layer_each(layers),
        other != plugin,
    ensures
        layer_key(without(layers, plugin), other) == layer_key(layers, other),
        layer_key(without(layers, plugin).push(LayerView { plugin, key }), other) == layer_key(
            layers,
            other,
        ),
{
    let rest = without(layers, plugin);
    let after = rest.push(LayerView { plugin, key });
    let gone = layer_index(layers, plugin, 0);
    layer_index_bounds(layers, plugin, 0);
    layer_index_bounds(layers, other, 0);
    layer_index_bounds(rest, other, 0);
    layer_index_bounds(after, other, 0);
    let at = layer_index(layers, other, 0);
    let at_rest = layer_index(rest, other, 0);
    let at_after = layer_index(after, other, 0);
    if at < layers.len() {
        let moved = if gone < layers.len() && at > gone {
            at - 1
        } else {
            at
        };
        assert(rest[moved] == layers[at]);
        assert(after[moved] == rest[moved]);
        if at_rest < moved {
            let back = if gone < layers.len() && at_rest >= gone {
                at_rest + 1
            } else {
                at_rest
            };
            assert(rest[at_rest] == layers[back]);
        }
        if at_after < moved {
            assert(after[at_after] == rest[at_after]);
        }
    } else {
        if at_rest < rest.len() {
            let back = if gone < layers.len() && at_rest >= gone {
                at_rest + 1
            } else {
                at_rest
            };
            assert(rest[at_rest] == layers[back]);
        }
        if at_after < rest.len() {
            assert(after[at_after] == rest[at_after]);
        }
    }
}

} // verus!
