//! What the registry of renderers and the cache of their renders hold after
//! each step, and how the theme is asked.

use crate::block_render::{
    all_asked, any_reply, covered, ctx_of, entry_index, entry_index_bounds, entry_of, failures_of,
    one_entry_each, received, reported, settled, with_entry, BlockId, EntryView, Failure, KeyView,
    RenderKey, Revision, State,
};
use crate::compose::Face;
use crate::place::{Faces, RenderObject};
use crate::render::{
    has_layer, layer_index, layer_index_bounds, layer_key, next_generation, noted_all,
    one_layer_each, the_innermost_raise_wins, unattributed, without, BlockRender, LayerView,
    RenderView,
};
use crate::theme::{all_painted, drawn_as, painted, Theme};
use std::sync::Arc;
use vstd::prelude::*;

verus! {

/// Taking a plugin's layer away leaves every other layer, in order. Its key is
/// the one its layer has, and it has a layer when one is its own.
pub proof fn what_is_left_of_the_layers(layers: Seq<LayerView>, plugin: Seq<char>)
    requires
        one_layer_each(layers),
    ensures
        without(layers, plugin) == layers.filter(|layer: LayerView| layer.plugin != plugin),
        has_layer(layers, plugin) <==> exists|i: int|
            0 <= i < layers.len() && (#[trigger] layers[i]).plugin == plugin,
        forall|i: int|
            0 <= i < layers.len() && (#[trigger] layers[i]).plugin == plugin ==> layer_key(
                layers,
                plugin,
            ) == Some(layers[i].key),
        (forall|i: int| 0 <= i < layers.len() ==> (#[trigger] layers[i]).plugin != plugin)
            ==> layer_key(layers, plugin) is None,
{
    layer_index_bounds(layers, plugin, 0);
    let at = layer_index(layers, plugin, 0);
    if at < layers.len() {
        others_are_kept(layers, plugin, at, layers.len() as int);
        assert(layers.take(layers.len() as int) =~= layers);
        assert forall|i: int|
            0 <= i < layers.len() && (#[trigger] layers[i]).plugin == plugin implies i == at by {
            if i < at {
                assert(layers[i].plugin != layers[at].plugin);
            } else if at < i {
                assert(layers[at].plugin != layers[i].plugin);
            }
        }
    } else {
        none_is_left_out(layers, plugin, layers.len() as int);
        assert(layers.take(layers.len() as int) =~= layers);
    }
}

proof fn none_is_left_out(layers: Seq<LayerView>, plugin: Seq<char>, n: int)
    requires
        0 <= n <= layers.len(),
        forall|k: int| 0 <= k < n ==> (#[trigger] layers[k]).plugin != plugin,
    ensures
        layers.take(n).filter(|layer: LayerView| layer.plugin != plugin) == layers.take(n),
    decreases n,
{
    reveal(Seq::filter);
    if n > 0 {
        none_is_left_out(layers, plugin, n - 1);
        assert(layers.take(n).drop_last() =~= layers.take(n - 1));
        assert(layers.take(n - 1).push(layers[n - 1]) =~= layers.take(n));
    }
}

proof fn others_are_kept(layers: Seq<LayerView>, plugin: Seq<char>, at: int, n: int)
    requires
        one_layer_each(layers),
        0 <= at < n <= layers.len(),
        layers[at].plugin == plugin,
    ensures
        layers.take(n).filter(|layer: LayerView| layer.plugin != plugin) == layers.take(n).remove(
            at,
        ),
    decreases n,
{
    reveal(Seq::filter);
    let all = layers.take(n);
    assert(all.drop_last() =~= layers.take(n - 1));
    if at == n - 1 {
        assert forall|k: int| 0 <= k < at implies (#[trigger] layers[k]).plugin != plugin by {
            assert(layers[k].plugin != layers[at].plugin);
        }
        none_is_left_out(layers, plugin, at);
        assert(all.remove(at) =~= layers.take(at));
    } else {
        others_are_kept(layers, plugin, at, n - 1);
        assert(layers[at].plugin != layers[n - 1].plugin);
        assert(all.remove(at) =~= layers.take(n - 1).remove(at).push(layers[n - 1]));
    }
}

/// The generation counts the registrations, from zero again behind the last
/// number there is.
pub proof fn the_generation_counts(count: u64)
    ensures
        count < u64::MAX ==> next_generation(count) == count + 1,
        count == u64::MAX ==> next_generation(count) == 0,
{
}

/// An error that passes through layers is tied to the first of them, and to
/// `<unknown>` where it passed through none.
pub proof fn who_an_error_is_tied_to(plugins: Seq<Arc<str>>, message: Seq<char>)
    ensures
        plugins.len() == 0 ==> noted_all(plugins) is None,
        plugins.len() > 0 ==> noted_all(plugins) == Some(plugins[0]),
        unattributed(message) matches RenderView::Failed { plugin, message: told } && plugin
            == "<unknown>"@ && told == message,
{
    if plugins.len() > 0 {
        the_innermost_raise_wins(plugins);
    }
}

/// Two keys are one exactly when they agree on the width, the theme, the mode
/// and the generation, and a block is rendered in the context of its key.
pub proof fn what_a_key_tells_apart(a: RenderKey, b: RenderKey)
    ensures
        a@ == b@ <==> a.width == b.width && a.theme_gen == b.theme_gen && (*a.mode)@ == (*b.mode)@
            && a.generation == b.generation,
        ctx_of(a).width == a.width,
        ctx_of(a).mode == a.mode,
        ctx_of(a).theme_gen == a.theme_gen,
{
}

/// A block is covered exactly when it has an entry of that very revision and
/// key.
pub proof fn what_covers_a_block(
    entries: Seq<EntryView>,
    id: BlockId,
    revision: Revision,
    key: KeyView,
)
    requires
        one_entry_each(entries),
    ensures
        covered(entries, id, revision, key) <==> exists|i: int|
            0 <= i < entries.len() && (#[trigger] entries[i]).id == id.0 && entries[i].revision
                == revision && entries[i].key == key,
        forall|i: int|
            0 <= i < entries.len() && (#[trigger] entries[i]).id == id.0 ==> entry_of(entries, id)
                == Some(entries[i]),
        (forall|i: int| 0 <= i < entries.len() ==> (#[trigger] entries[i]).id != id.0)
            ==> entry_of(entries, id) is None,
{
    entry_index_bounds(entries, id.0, 0);
    let at = entry_index(entries, id.0, 0);
    assert forall|i: int| 0 <= i < entries.len() && (#[trigger] entries[i]).id == id.0 implies i
        == at by {
        if i < at {
            assert(entries[i].id != id.0);
        } else if at < i {
            assert(entries[at].id != entries[i].id);
        }
    }
}

/// A request takes the place of its block's entry, or stands behind all others
/// where it had none; no other entry changes.
pub proof fn where_a_request_is_kept(entries: Seq<EntryView>, entry: EntryView, i: int)
    requires
        one_entry_each(entries),
    ensures
        ({
            let after = with_entry(entries, entry);
            let known = exists|k: int|
                0 <= k < entries.len() && (#[trigger] entries[k]).id == entry.id;
            &&& known ==> after.len() == entries.len()
            &&& !known ==> after.len() == entries.len() + 1 && after.last() == entry
            &&& 0 <= i < entries.len() ==> after[i] == if entries[i].id == entry.id {
                entry
            } else {
                entries[i]
            }
        }),
{
    entry_index_bounds(entries, entry.id, 0);
    let at = entry_index(entries, entry.id, 0);
    assert forall|k: int| 0 <= k < entries.len() && (#[trigger] entries[k]).id
        == entry.id implies k == at by {
        if k < at {
            assert(entries[k].id != entry.id);
        } else if at < k {
            assert(entries[at].id != entries[k].id);
        }
    }
    if at < entries.len() {
        assert(entries[at].id == entry.id);
    }
}

/// A poll lands each reply in the entry that waited for it: objects make it
/// ready with just those, and any other reply has it skipped. An entry that
/// did not wait, or got no reply, stays as it was, and every entry keeps its
/// block, revision and key.
pub proof fn where_a_reply_lands(
    entries: Seq<EntryView>,
    replies: Seq<Option<BlockRender>>,
    i: int,
)
    requires
        replies.len() == entries.len(),
    ensures
        settled(entries, replies).len() == entries.len(),
        0 <= i < entries.len() ==> {
            let was = entries[i];
            let now = settled(entries, replies)[i];
            &&& now.id == was.id
            &&& now.revision == was.revision
            &&& now.key == was.key
            &&& !(was.state is Pending) || replies[i] is None ==> now.state == was.state
            &&& was.state is Pending ==> (replies[i] matches Some(reply) ==> match reply {
                BlockRender::Objects(objects) => now.state == State::Ready(objects),
                BlockRender::Unhandled => now.state == State::Skipped,
                BlockRender::Failed { .. } => now.state == State::Skipped,
            })
        },
        any_reply(entries, replies) <==> exists|k: int|
            0 <= k < entries.len() && #[trigger] settled(entries, replies)[k] != entries[k],
{
    let after = settled(entries, replies);
    if any_reply(entries, replies) {
        let k = choose|k: int|
            0 <= k < entries.len() && (#[trigger] entries[k]).state is Pending
                && replies[k] is Some;
        assert(after[k] != entries[k]);
    }
    if exists|k: int| 0 <= k < entries.len() && #[trigger] after[k] != entries[k] {
        let k = choose|k: int| 0 <= k < entries.len() && #[trigger] after[k] != entries[k];
        assert(entries[k].state is Pending && replies[k] is Some);
    }
}

/// A poll asks every entry that waits, and makes of it what came back.
pub proof fn every_waiting_entry_is_asked(
    entries: Seq<EntryView>,
    replies: Seq<Option<BlockRender>>,
    i: int,
)
    requires
        all_asked(entries, replies),
        0 <= i < entries.len(),
    ensures
        replies.len() == entries.len(),
        entries[i].state matches State::Pending(receiver) ==> received(receiver, replies[i]),
{
}

/// A render failed that an entry waited for.
pub open spec fn fails(entry: EntryView, reply: Option<BlockRender>) -> bool {
    entry.state is Pending && (reply matches Some(render) && render is Failed)
}

/// The places of the entries whose render failed, in order.
pub open spec fn failing(entries: Seq<EntryView>, replies: Seq<Option<BlockRender>>) -> Seq<int> {
    Seq::new(entries.len(), |i: int| i).filter(|i: int| fails(entries[i], replies[i]))
}

/// A poll reports each failed render once, in the order of the entries, with
/// the plugin and the message of the reply and the generation of the request.
pub proof fn what_a_poll_reports(entries: Seq<EntryView>, replies: Seq<Option<BlockRender>>, j: int)
    requires
        replies.len() == entries.len(),
    ensures
        failures_of(entries, replies).len() == failing(entries, replies).len(),
        0 <= j < failures_of(entries, replies).len() ==> {
            let failure = failures_of(entries, replies)[j];
            let at = failing(entries, replies)[j];
            &&& 0 <= at < entries.len()
            &&& fails(entries[at], replies[at])
            &&& failure.generation == entries[at].key.generation
            &&& replies[at] matches Some(BlockRender::Failed { plugin, message }) && failure.plugin
                == plugin && failure.message == message
        },
    decreases entries.len(),
{
    reveal(Seq::filter);
    if entries.len() > 0 {
        let end = entries.len() - 1;
        let rest = entries.drop_last();
        let fewer = replies.drop_last();
        what_a_poll_reports(rest, fewer, j);
        let places = Seq::new(entries.len(), |i: int| i);
        let here = |i: int| fails(entries[i], replies[i]);
        let there = |i: int| fails(rest[i], fewer[i]);
        let before = Seq::new(rest.len(), |i: int| i);
        assert(places.drop_last() =~= before);
        same_places(before, here, there);
        assert(places.last() == end);
    }
}

proof fn same_places(places: Seq<int>, here: spec_fn(int) -> bool, there: spec_fn(int) -> bool)
    requires
        forall|k: int| 0 <= k < places.len() ==> here(#[trigger] places[k]) == there(places[k]),
    ensures
        places.filter(here) == places.filter(there),
    decreases places.len(),
{
    reveal(Seq::filter);
    if places.len() > 0 {
        let rest = places.drop_last();
        assert forall|k: int| 0 <= k < rest.len() implies here(#[trigger] rest[k]) == there(
            rest[k],
        ) by {
            assert(rest[k] == places[k]);
        }
        same_places(rest, here, there);
        assert(places[places.len() - 1] == places.last());
    }
}

/// A reported failure is handed to the callback with its plugin, its generation
/// and its message.
pub proof fn what_the_callback_is_told<F: FnMut(&Arc<str>, u64, &str)>(
    on_failure: F,
    failure: Failure,
)
    requires
        reported(on_failure, failure),
    ensures
        exists|told: &str| #[trigger]
            call_ensures(on_failure, (&failure.plugin, failure.generation, told), ()) && told@
                == failure.message@,
{
}

/// The theme is asked of every span of every line whether its style is a
/// spinner: if so, for the spinner's frame, and else for the style. It is asked
/// for the style of every decoration.
pub proof fn what_the_theme_is_asked<T: Theme>(
    theme: &T,
    objects: Seq<RenderObject>,
    faces: Seq<Faces>,
    k: int,
    i: int,
    j: int,
)
    requires
        all_painted(theme, objects, faces),
        0 <= k < objects.len(),
    ensures
        objects[k] matches RenderObject::Lines { lines, decorations } ==> {
            &&& faces[k].spans@.len() == lines@.len()
            &&& faces[k].decorations@.len() == decorations@.len()
            &&& 0 <= i < lines@.len() && 0 <= j < lines@[i].spans@.len() ==> {
                let style = lines@[i].spans@[j].style;
                match faces[k].spans@[i]@[j] {
                    Face::Styled(resolved) => call_ensures(
                        T::spinner_style_name,
                        (theme, &style),
                        None,
                    ) && call_ensures(T::resolve_span_style, (theme, &style), resolved),
                    Face::Spinner { style: name, span } => call_ensures(
                        T::spinner_style_name,
                        (theme, &style),
                        Some(name),
                    ) && call_ensures(T::spinner_span, (theme, &name), span),
                }
            }
            &&& 0 <= j < decorations@.len() ==> call_ensures(
                T::resolve_span_style,
                (theme, &decorations@[j].style),
                faces[k].decorations@[j],
            )
        },
{
    let object = objects[k];
    match object {
        RenderObject::Lines { lines, decorations } => {
            assert(painted(theme, lines@, decorations@, faces[k]));
            if 0 <= i < lines@.len() && 0 <= j < lines@[i].spans@.len() {
                let face = faces[k].spans@[i]@[j];
                assert(drawn_as(theme, lines@[i].spans@[j].style, face));
            }
            if 0 <= j < decorations@.len() {
                let face = faces[k].decorations@[j];
            }
        },
        _ => {},
    }
}

} // verus!
