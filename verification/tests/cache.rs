use maki_transcript::block_render::{
    settle, BlockId, BlockRenderCache, RenderKey, Revision, State,
};
use maki_transcript::place::RenderObject;
use maki_transcript::render::{BlockRender, RenderCtx};
use maki_transcript::snapshot::SnapshotLine;
use serde_json::Value;
use std::sync::atomic::{AtomicUsize, Ordering};
use std::sync::Arc;

const FAILURE_MESSAGE: &str = "renderer boom";

fn key(width: u16) -> RenderKey {
    key_gen(width, 7)
}

fn key_gen(width: u16, generation: u64) -> RenderKey {
    RenderKey {
        width,
        theme_gen: 1,
        mode: Arc::from("build"),
        generation,
    }
}

fn key_theme(width: u16, theme_gen: u64) -> RenderKey {
    RenderKey {
        theme_gen,
        ..key_gen(width, 7)
    }
}

fn block(kind: &str) -> Value {
    let mut fields = serde_json::Map::new();
    fields.insert("kind".to_owned(), Value::from(kind));
    Value::Object(fields)
}

fn send_object(block: Value, _ctx: RenderCtx) -> flume::Receiver<BlockRender> {
    let (tx, rx) = flume::bounded(1);
    tx.send(BlockRender::Objects(vec![RenderObject::Lines {
        lines: vec![SnapshotLine::plain(
            block["kind"].as_str().unwrap_or_default().to_owned(),
        )],
        decorations: Vec::new(),
    }]))
    .expect("reply");
    rx
}

fn reply(answer: BlockRender) -> flume::Receiver<BlockRender> {
    let (tx, rx) = flume::bounded(1);
    tx.send(answer).expect("reply");
    rx
}

fn text(objects: &[RenderObject]) -> String {
    objects
        .iter()
        .map(|object| match object {
            RenderObject::Lines { lines, .. } => lines
                .iter()
                .map(|line| {
                    line.spans
                        .iter()
                        .map(|span| span.text.as_str())
                        .collect::<String>()
                })
                .collect::<Vec<_>>()
                .join("\n"),
            RenderObject::Raw { seq, .. } => seq.clone(),
            RenderObject::ToolBody => "[tool]".to_owned(),
            RenderObject::InstructionsBody => "[instructions]".to_owned(),
        })
        .collect::<Vec<_>>()
        .join("|")
}

fn object(id: BlockId, cache: &mut BlockRenderCache, revision: Revision, kind: &str) {
    object_with(id, cache, revision, kind, key(40));
}

fn object_with(
    id: BlockId,
    cache: &mut BlockRenderCache,
    revision: Revision,
    kind: &str,
    key: RenderKey,
) {
    cache.request(id, revision, block(kind), key, send_object);
}

#[test]
fn ready_objects_are_exposed_after_poll() {
    let mut cache = BlockRenderCache::default();
    let id = BlockId::new(1);
    object(id, &mut cache, 1, "user");
    assert!(cache.objects(id, 1, &key(40)).is_none());
    assert!(cache.poll(|_, _, _| {}));
    assert_eq!(text(cache.objects(id, 1, &key(40)).unwrap()), "user");
}

#[test]
fn same_key_is_not_requested_twice() {
    let mut cache = BlockRenderCache::default();
    let id = BlockId::new(1);
    object(id, &mut cache, 1, "first");
    cache.poll(|_, _, _| {});
    object(id, &mut cache, 1, "second");
    assert_eq!(text(cache.objects(id, 1, &key(40)).unwrap()), "first");
}

#[test]
fn changed_revision_supersedes_and_drops_stale_reply() {
    let mut cache = BlockRenderCache::default();
    let id = BlockId::new(1);
    let (tx, rx) = flume::bounded(1);
    cache.request(id, 1, block("old"), key(40), move |_, _| rx.clone());
    object(id, &mut cache, 2, "new");
    // The superseded revision's reply has nowhere to land.
    assert!(tx.send(BlockRender::Objects(Vec::new())).is_err());
    assert!(cache.poll(|_, _, _| {}));
    assert_eq!(text(cache.objects(id, 2, &key(40)).unwrap()), "new");
    assert!(cache.objects(id, 1, &key(40)).is_none());
}

#[test]
fn width_change_re_renders() {
    let mut cache = BlockRenderCache::default();
    let id = BlockId::new(1);
    object(id, &mut cache, 1, "narrow");
    cache.poll(|_, _, _| {});
    cache.request(id, 1, block("wide"), key(80), send_object);
    assert!(cache.objects(id, 1, &key(80)).is_none());
    assert!(cache.poll(|_, _, _| {}));
    assert_eq!(text(cache.objects(id, 1, &key(80)).unwrap()), "wide");
}

#[test]
fn theme_generation_change_re_renders() {
    let mut cache = BlockRenderCache::default();
    let id = BlockId::new(1);
    object_with(id, &mut cache, 1, "old-theme", key_theme(40, 1));
    cache.poll(|_, _, _| {});
    object_with(id, &mut cache, 1, "new-theme", key_theme(40, 2));
    assert!(cache.objects(id, 1, &key_theme(40, 2)).is_none());
    assert!(cache.poll(|_, _, _| {}));
    assert_eq!(
        text(cache.objects(id, 1, &key_theme(40, 2)).unwrap()),
        "new-theme"
    );
}

#[test]
fn unhandled_is_sticky_for_the_key() {
    let mut cache = BlockRenderCache::default();
    let id = BlockId::new(1);
    let retried = Arc::new(AtomicUsize::new(0));
    cache.request(id, 1, block("user"), key(40), move |_, _| {
        reply(BlockRender::Unhandled)
    });
    cache.poll(|_, _, _| {});
    let counter2 = Arc::clone(&retried);
    cache.request(id, 1, block("user"), key(40), move |block, ctx| {
        counter2.fetch_add(1, Ordering::Relaxed);
        send_object(block, ctx)
    });
    assert_eq!(retried.load(Ordering::Relaxed), 0);
    assert!(cache.objects(id, 1, &key(40)).is_none());
}

#[test]
fn failure_reaches_the_callback_with_its_generation() {
    let mut cache = BlockRenderCache::default();
    let id = BlockId::new(1);
    let plugin: Arc<str> = Arc::from("renderer");
    let sent_plugin = Arc::clone(&plugin);
    cache.request(id, 1, block("user"), key_gen(40, 9), move |_, _| {
        reply(BlockRender::Failed {
            plugin: sent_plugin,
            message: FAILURE_MESSAGE.to_owned(),
        })
    });
    let mut seen = Vec::new();
    assert!(cache.poll(|plugin, generation, message| {
        seen.push((Arc::clone(plugin), generation, message.to_owned()));
    }));
    assert_eq!(seen, vec![(plugin, 9, FAILURE_MESSAGE.to_owned())]);
    assert!(cache.objects(id, 1, &key_gen(40, 9)).is_none());
}

#[test]
fn unhandled_is_retried_after_the_generation_changes() {
    let mut cache = BlockRenderCache::default();
    let id = BlockId::new(1);
    cache.request(id, 1, block("user"), key_gen(40, 7), |_, _| {
        reply(BlockRender::Unhandled)
    });
    cache.poll(|_, _, _| {});
    assert!(cache.objects(id, 1, &key_gen(40, 7)).is_none());
    object_with(id, &mut cache, 1, "user", key_gen(40, 8));
    assert!(cache.poll(|_, _, _| {}));
    assert_eq!(text(cache.objects(id, 1, &key_gen(40, 8)).unwrap()), "user");
}

#[test]
fn stale_reply_from_an_older_generation_is_dropped() {
    let mut cache = BlockRenderCache::default();
    let id = BlockId::new(1);
    let (old_tx, old_rx) = flume::bounded(1);
    cache.request(id, 1, block("old"), key_gen(40, 7), move |_, _| old_rx.clone());
    object_with(id, &mut cache, 1, "new", key_gen(40, 8));
    assert!(old_tx.send(BlockRender::Objects(Vec::new())).is_err());
    assert!(cache.poll(|_, _, _| {}));
    assert!(cache.objects(id, 1, &key_gen(40, 7)).is_none());
    assert_eq!(text(cache.objects(id, 1, &key_gen(40, 8)).unwrap()), "new");
}

#[test]
fn inflight_tracks_pending_requests() {
    let mut cache = BlockRenderCache::default();
    let id = BlockId::new(1);
    let (_tx, rx) = flume::bounded(1);
    cache.request(id, 1, block("user"), key(40), move |_, _| rx.clone());
    assert!(cache.inflight());
    cache.poll(|_, _, _| {});
    assert!(cache.inflight());
}

#[test]
fn inflight_ends_with_the_last_reply() {
    let mut cache = BlockRenderCache::default();
    assert!(!cache.inflight());
    object(BlockId::new(1), &mut cache, 1, "user");
    assert!(cache.inflight());
    cache.poll(|_, _, _| {});
    assert!(!cache.inflight());
    assert!(!cache.poll(|_, _, _| {}));
}

#[test]
fn a_block_needs_asking_once_per_revision_and_key() {
    let mut cache = BlockRenderCache::default();
    let id = BlockId::new(3);
    assert!(cache.needs(id, 1, &key(40)));
    object(id, &mut cache, 1, "user");
    assert!(!cache.needs(id, 1, &key(40)));
    assert!(cache.needs(id, 2, &key(40)));
    assert!(cache.needs(id, 1, &key(41)));
    let other_mode = RenderKey {
        mode: Arc::from("plan"),
        ..key(40)
    };
    assert!(cache.needs(id, 1, &other_mode));
    cache.poll(|_, _, _| {});
    assert!(!cache.needs(id, 1, &key(40)));
}

#[test]
fn blocks_do_not_share_their_renders() {
    let mut cache = BlockRenderCache::default();
    for id in 0..20u64 {
        object(BlockId::new(id * 7), &mut cache, 1, &format!("block {id}"));
    }
    object(BlockId::new(7), &mut cache, 2, "again");
    assert!(cache.poll(|_, _, _| {}));
    for id in 0..20u64 {
        let (revision, expected) = if id == 1 {
            (2, "again".to_owned())
        } else {
            (1, format!("block {id}"))
        };
        assert_eq!(
            text(
                cache
                    .objects(BlockId::new(id * 7), revision, &key(40))
                    .unwrap()
            ),
            expected
        );
    }
}

#[test]
fn the_renderer_is_asked_with_the_keys_context() {
    let mut cache = BlockRenderCache::default();
    let seen = Arc::new(std::sync::Mutex::new(None));
    let inner = Arc::clone(&seen);
    cache.request(
        BlockId::new(1),
        1,
        block("user"),
        key_theme(33, 5),
        move |block, ctx| {
            *inner.lock().unwrap() = Some((block["kind"].clone(), ctx.clone()));
            send_object(block, ctx)
        },
    );
    let (kind, ctx) = seen.lock().unwrap().take().expect("asked");
    assert_eq!(kind, "user");
    assert_eq!(
        ctx,
        RenderCtx {
            width: 33,
            mode: Arc::from("build"),
            theme_gen: 5
        }
    );
}

#[test]
fn a_reply_settles_its_request() {
    let (state, failure) = settle(BlockRender::Objects(vec![RenderObject::ToolBody]), 4);
    assert!(matches!(state, State::Ready(objects) if objects.len() == 1));
    assert!(failure.is_none());
    let (state, failure) = settle(BlockRender::Unhandled, 4);
    assert!(matches!(state, State::Skipped));
    assert!(failure.is_none());
    let (state, failure) = settle(
        BlockRender::Failed {
            plugin: Arc::from("p"),
            message: "m".to_owned(),
        },
        4,
    );
    assert!(matches!(state, State::Skipped));
    let failure = failure.expect("failure");
    assert_eq!(&*failure.plugin, "p");
    assert_eq!(failure.generation, 4);
    assert_eq!(failure.message, "m");
}

#[test]
fn every_failure_is_reported_once_and_nothing_else() {
    let mut cache = BlockRenderCache::default();
    for id in 0..3u64 {
        cache.request(
            BlockId::new(id),
            1,
            block("user"),
            key_gen(40, id),
            move |_, _| {
                reply(BlockRender::Failed {
                    plugin: Arc::from(format!("plugin {id}")),
                    message: format!("message {id}"),
                })
            },
        );
    }
    cache.request(BlockId::new(3), 1, block("user"), key(40), |_, _| {
        reply(BlockRender::Unhandled)
    });
    object(BlockId::new(4), &mut cache, 1, "user");
    let mut seen = Vec::new();
    assert!(cache.poll(|plugin, generation, message| {
        seen.push((plugin.to_string(), generation, message.to_owned()));
    }));
    seen.sort();
    let expected: Vec<(String, u64, String)> = (0..3u64)
        .map(|id| (format!("plugin {id}"), id, format!("message {id}")))
        .collect();
    assert_eq!(seen, expected);
    seen.clear();
    assert!(!cache.poll(|plugin, generation, message| {
        seen.push((plugin.to_string(), generation, message.to_owned()));
    }));
    assert!(seen.is_empty());
}

#[test]
fn a_covered_block_is_not_sent_again() {
    let mut cache = BlockRenderCache::default();
    let id = BlockId::new(1);
    let sent = AtomicUsize::new(0);
    let count = |block: Value, ctx: RenderCtx| {
        sent.fetch_add(1, Ordering::Relaxed);
        send_object(block, ctx)
    };
    cache.request(id, 1, block("user"), key(40), count);
    cache.request(id, 1, block("user"), key(40), count);
    assert_eq!(sent.load(Ordering::Relaxed), 1);
    cache.poll(|_, _, _| {});
    cache.request(id, 1, block("user"), key(40), count);
    assert_eq!(sent.load(Ordering::Relaxed), 1);
    cache.request(id, 2, block("user"), key(40), count);
    assert_eq!(sent.load(Ordering::Relaxed), 2);
}
