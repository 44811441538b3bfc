//! Per-block render cache for the transcript renderer.
//!
//! The host projects a block, asks the renderer for it keyed by
//! `(id, revision, width, theme generation, mode)`, and keeps at most one
//! request in flight per block. Replies are drained outside `view`; a
//! completion applies only while its id and revision still match, so a
//! reordered or stale render is dropped and the caller keeps drawing the
//! previous frame.

use crate::place::RenderObject;
use crate::render::{BlockRender, RenderCtx};
use crate::text::same_text;
use flume::Receiver;
use serde_json::Value;
use std::collections::HashMap;
use std::sync::Arc;
use vstd::prelude::*;

verus! {

broadcast use vstd::std_specs::hash::group_hash_axioms;

/// `flume::Receiver`, asked with [`try_recv`] alone.
#[verifier::external_type_specification]
#[verifier::external_body]
#[verifier::reject_recursive_types(T)]
pub struct ExReceiver<T>(flume::Receiver<T>);

/// Stable, panel-local identity for one projected block. Never persisted.
#[derive(Debug, Clone, Copy, PartialEq, Eq, Hash, Structural)]
pub struct BlockId(pub u64);

impl BlockId {
    /// The block with the given number.
    pub fn new(id: u64) -> (made: Self)
        ensures
            made == BlockId(id),
    {
        BlockId(id)
    }
}

/// Bumped whenever a block's projected content changes.
pub type Revision = u64;

/// Everything a rendered block depends on besides its content.
#[derive(Debug, PartialEq, Eq)]
pub struct RenderKey {
    pub width: u16,
    pub theme_gen: u64,
    pub mode: Arc<str>,
    /// Renderer registry generation. Advances when a plugin registers,
    /// unloads, or replaces its renderer, so a block skipped before the
    /// change is retried and a reply from the former chain is refused.
    pub generation: u64,
}

impl Clone for RenderKey {
    fn clone(&self) -> (copy: Self)
        ensures
            copy == *self,
    {
        RenderKey {
            width: self.width,
            theme_gen: self.theme_gen,
            mode: self.mode.clone(),
            generation: self.generation,
        }
    }
}

/// What a [`RenderKey`] holds.
pub struct KeyView {
    pub width: u16,
    pub theme_gen: u64,
    pub mode: Seq<char>,
    pub generation: u64,
}

impl View for RenderKey {
    type V = KeyView;

    open spec fn view(&self) -> KeyView {
        KeyView {
            width: self.width,
            theme_gen: self.theme_gen,
            mode: (*self.mode)@,
            generation: self.generation,
        }
    }
}

/// Whether two keys stand for the same rendering.
pub fn same_key(a: &RenderKey, b: &RenderKey) -> (same: bool)
    ensures
        same == (a@ == b@),
{
    a.width == b.width && a.theme_gen == b.theme_gen && a.generation == b.generation && same_text(
        &*a.mode,
        &*b.mode,
    )
}

/// How far a block's rendering has come.
pub enum State {
    /// Asked for, not answered.
    Pending(flume::Receiver<BlockRender>),
    Ready(Vec<RenderObject>),
    /// No renderer claimed the block, or one raised. Sticky for this key.
    Skipped,
}

/// The rendering of one block.
pub struct Entry {
    id: u64,
    revision: Revision,
    key: RenderKey,
    state: State,
}

/// What an [`Entry`] holds.
pub struct EntryView {
    pub id: u64,
    pub revision: Revision,
    pub key: KeyView,
    pub state: State,
}

impl View for Entry {
    type V = EntryView;

    closed spec fn view(&self) -> EntryView {
        EntryView {
            id: self.id,
            revision: self.revision,
            key: self.key@,
            state: self.state,
        }
    }
}

/// Render results for transcript blocks, applied outside `view`.
pub struct BlockRenderCache {
    entries: Vec<Entry>,
    /// Where each block's entry is.
    places: HashMap<u64, usize>,
}

impl View for BlockRenderCache {
    type V = Seq<EntryView>;

    closed spec fn view(&self) -> Seq<EntryView> {
        self.entries@.map_values(|entry: Entry| entry@)
    }
}

/// Where a block's entry is, or the number of entries when it has none.
pub open spec fn entry_index(entries: Seq<EntryView>, id: u64, from: int) -> int
    decreases entries.len() - from,
{
    if 0 <= from < entries.len() && entries[from].id != id {
        entry_index(entries, id, from + 1)
    } else {
        from
    }
}

/// A block's entry, if it has one.
pub open spec fn entry_of(entries: Seq<EntryView>, id: BlockId) -> Option<EntryView> {
    let at = entry_index(entries, id.0, 0);
    if at < entries.len() {
        Some(entries[at])
    } else {
        None
    }
}

/// No block has two entries.
pub open spec fn one_entry_each(entries: Seq<EntryView>) -> bool {
    forall|i: int, j: int|
        0 <= i < j < entries.len() ==> (#[trigger] entries[i]).id != (#[trigger] entries[j]).id
}

/// Whether a block was already asked for in this revision and key.
pub open spec fn covered(
    entries: Seq<EntryView>,
    id: BlockId,
    revision: Revision,
    key: KeyView,
) -> bool {
    entry_of(entries, id) matches Some(entry) && entry.revision == revision && entry.key == key
}

/// The entries with one block's replaced, or added at the end when it had
/// none.
pub open spec fn with_entry(entries: Seq<EntryView>, entry: EntryView) -> Seq<EntryView> {
    let at = entry_index(entries, entry.id, 0);
    if at < entries.len() {
        entries.update(at, entry)
    } else {
        entries.push(entry)
    }
}

/// The context a block is rendered in, as far as its key says.
pub open spec fn ctx_of(key: RenderKey) -> RenderCtx {
    RenderCtx { width: key.width, mode: key.mode, theme_gen: key.theme_gen }
}

/// A renderer's failure, for the caller to surface.
pub struct Failure {
    pub plugin: Arc<str>,
    pub generation: u64,
    pub message: String,
}

/// What a reply makes of a request.
pub open spec fn settled_state(reply: BlockRender) -> State {
    match reply {
        BlockRender::Objects(objects) => State::Ready(objects),
        BlockRender::Unhandled => State::Skipped,
        BlockRender::Failed { .. } => State::Skipped,
    }
}

/// An entry after a poll. A reply lands only where one was waited for.
pub open spec fn settled_entry(entry: EntryView, reply: Option<BlockRender>) -> EntryView {
    match (entry.state, reply) {
        (State::Pending(_), Some(reply)) => EntryView { state: settled_state(reply), ..entry },
        _ => entry,
    }
}

/// The entries after a poll.
pub open spec fn settled(entries: Seq<EntryView>, replies: Seq<Option<BlockRender>>) -> Seq<
    EntryView,
> {
    Seq::new(entries.len(), |i: int| settled_entry(entries[i], replies[i]))
}

/// Whether a reply landed.
pub open spec fn any_reply(entries: Seq<EntryView>, replies: Seq<Option<BlockRender>>) -> bool {
    exists|i: int|
        0 <= i < entries.len() && (#[trigger] entries[i]).state is Pending && replies[i] is Some
}

/// The failures among the replies that landed, in order, each with the
/// generation its block was asked for under.
pub open spec fn failures_of(
    entries: Seq<EntryView>,
    replies: Seq<Option<BlockRender>>,
) -> Seq<Failure>
    decreases entries.len(),
{
    if entries.len() == 0 {
        seq![]
    } else {
        let before = failures_of(entries.drop_last(), replies.drop_last());
        let entry = entries.last();
        match (entry.state, replies.last()) {
            (State::Pending(_), Some(BlockRender::Failed { plugin, message })) => before.push(
                Failure { plugin, generation: entry.key.generation, message },
            ),
            _ => before,
        }
    }
}

/// `Receiver::try_recv`: the reply, if it is there. Whether it is, and what it
/// is, depends on the renderer's thread, so nothing is stated of it.
#[verifier::external_body]
fn try_recv(receiver: &Receiver<BlockRender>) -> (reply: Option<BlockRender>) {
    receiver.try_recv().ok()
}

/// Whether `reply` is what asking `receiver` came back with.
pub closed spec fn received(receiver: Receiver<BlockRender>, reply: Option<BlockRender>) -> bool {
    call_ensures(try_recv, (&receiver,), reply)
}

/// Every entry that waits was asked, and its reply is what came back.
pub open spec fn all_asked(entries: Seq<EntryView>, replies: Seq<Option<BlockRender>>) -> bool {
    &&& replies.len() == entries.len()
    &&& forall|i: int|
        0 <= i < entries.len() ==> ((#[trigger] entries[i]).state matches State::Pending(receiver)
            ==> received(receiver, replies[i]))
}

/// Whether a failure is one to report: some entry waits under its generation,
/// and asking came back with its plugin and message.
pub open spec fn owed(
    entries: Seq<EntryView>,
    plugin: Arc<str>,
    generation: u64,
    message: Seq<char>,
) -> bool {
    exists|i: int, text: String|
        0 <= i < entries.len() && text@ == message && (#[trigger] entries[i]).key.generation
            == generation && entries[i].state is Pending && #[trigger] received(
            entries[i].state->Pending_0,
            Some(BlockRender::Failed { plugin, message: text }),
        )
}

/// Whether a callback was called with a failure's plugin, generation and
/// message.
pub open spec fn reported<F: FnMut(&Arc<str>, u64, &str)>(
    on_failure: F,
    failure: Failure,
) -> bool {
    exists|message: &str|
        message@ == failure.message@ && #[trigger] call_ensures(
            on_failure,
            (&failure.plugin, failure.generation, message),
            (),
        )
}

/// Every failure among the replies is one to report.
proof fn failures_are_owed(entries: Seq<EntryView>, replies: Seq<Option<BlockRender>>)
    requires
        all_asked(entries, replies),
    ensures
        forall|k: int|
            0 <= k < failures_of(entries, replies).len() ==> owed(
                entries,
                (#[trigger] failures_of(entries, replies)[k]).plugin,
                failures_of(entries, replies)[k].generation,
                failures_of(entries, replies)[k].message@,
            ),
    decreases entries.len(),
{
    if entries.len() > 0 {
        let short = entries.drop_last();
        let fewer = replies.drop_last();
        assert forall|i: int| 0 <= i < short.len() implies ((
        #[trigger] short[i]).state matches State::Pending(receiver) ==> received(
            receiver,
            fewer[i],
        )) by {
            assert(short[i] == entries[i]);
        }
        failures_are_owed(short, fewer);
        let before = failures_of(short, fewer);
        let all = failures_of(entries, replies);
        assert forall|k: int| 0 <= k < all.len() implies owed(
            entries,
            (#[trigger] all[k]).plugin,
            all[k].generation,
            all[k].message@,
        ) by {
            if k < before.len() {
                assert(all[k] == before[k]);
                let (i, text) = choose|i: int, text: String|
                    0 <= i < short.len() && text@ == before[k].message@ && (
                    #[trigger] short[i]).key.generation == before[k].generation
                        && short[i].state is Pending && #[trigger] received(
                        short[i].state->Pending_0,
                        Some(BlockRender::Failed { plugin: before[k].plugin, message: text }),
                    );
                assert(entries[i] == short[i]);
            } else {
                let i = entries.len() - 1;
                assert(entries[i].state is Pending);
                assert(received(
                    entries[i].state->Pending_0,
                    Some(
                        BlockRender::Failed { plugin: all[k].plugin, message: all[k].message },
                    ),
                ));
            }
        }
    }
}

/// What a reply makes of a request, and the failure it reports, if it does.
pub fn settle(reply: BlockRender, generation: u64) -> (settled: (State, Option<Failure>))
    ensures
        settled.0 == settled_state(reply),
        settled.1 == match reply {
            BlockRender::Failed { plugin, message } => Some(
                Failure { plugin, generation, message },
            ),
            _ => None,
        },
{
    match reply {
        BlockRender::Objects(objects) => (State::Ready(objects), None),
        BlockRender::Unhandled => (State::Skipped, None),
        BlockRender::Failed { plugin, message } => (
            State::Skipped,
            Some(Failure { plugin, generation, message }),
        ),
    }
}

pub(crate) proof fn entry_index_bounds(entries: Seq<EntryView>, id: u64, from: int)
    requires
        0 <= from <= entries.len(),
    ensures
        from <= entry_index(entries, id, from) <= entries.len(),
        entry_index(entries, id, from) < entries.len() ==> entries[entry_index(
            entries,
            id,
            from,
        )].id == id,
        forall|k: int|
            from <= k < entry_index(entries, id, from) ==> (#[trigger] entries[k]).id != id,
    decreases entries.len() - from,
{
    if from < entries.len() && entries[from].id != id {
        entry_index_bounds(entries, id, from + 1);
    }
}

impl BlockRenderCache {
    /// No block has two entries, and each is found where it is.
    pub closed spec fn wf(&self) -> bool {
        &&& one_entry_each(self@)
        &&& forall|i: int|
            0 <= i < self.entries@.len() ==> self.places@.contains_key(
                (#[trigger] self.entries@[i]).id,
            ) && self.places@[self.entries@[i].id] == i
        &&& forall|id: u64| #[trigger]
            self.places@.contains_key(id) ==> self.places@[id] < self.entries@.len()
                && self.entries@[self.places@[id] as int].id == id
    }

    /// Where a block's entry is.
    fn find(&self, id: BlockId) -> (at: Option<usize>)
        requires
            self.wf(),
        ensures
            match at {
                Some(at) => at < self.entries@.len() && at == entry_index(self@, id.0, 0)
                    && entry_of(self@, id) == Some(self@[at as int]),
                None => entry_of(self@, id) is None && entry_index(self@, id.0, 0)
                    == self.entries@.len() && !self.places@.contains_key(id.0),
            },
    {
        proof {
            entry_index_bounds(self@, id.0, 0);
            let at = entry_index(self@, id.0, 0);
            if at < self@.len() {
                assert(self@[at] == self.entries@[at]@);
            }
        }
        match self.places.get(&id.0) {
            Some(at) => {
                proof {
                    assert(self@[*at as int] == self.entries@[*at as int]@);
                    let first = entry_index(self@, id.0, 0);
                    if first < *at {
                        assert(self@[first].id != self@[*at as int].id);
                    }
                }
                Some(*at)
            },
            None => None,
        }
    }

    /// Asks the renderer for `id`. Supersedes any request still in flight
    /// for the same block and skips a block already covered by this key.
    pub fn request<F: FnOnce(Value, RenderCtx) -> Receiver<BlockRender>>(
        &mut self,
        id: BlockId,
        revision: Revision,
        block: Value,
        key: RenderKey,
        send: F,
    )
        requires
            old(self).wf(),
            !covered(old(self)@, id, revision, key@) ==> call_requires(send, (block, ctx_of(key))),
        ensures
            final(self).wf(),
            covered(old(self)@, id, revision, key@) ==> final(self)@ == old(self)@,
            !covered(old(self)@, id, revision, key@) ==> exists|receiver: Receiver<BlockRender>|
                #[trigger]
                call_ensures(send, (block, ctx_of(key)), receiver) && final(self)@ == with_entry(
                    old(self)@,
                    EntryView {
                        id: id.0,
                        revision,
                        key: key@,
                        state: State::Pending(receiver),
                    },
                ),
    {
        let ghost before = self@;
        let found = self.find(id);
        if let Some(at) = found {
            assert(before[at as int] == self.entries@[at as int]@);
            if self.entries[at].revision == revision && same_key(&self.entries[at].key, &key) {
                return ;
            }
        }
        let ctx = RenderCtx { width: key.width, mode: key.mode.clone(), theme_gen: key.theme_gen };
        let receiver = send(block, ctx);
        let ghost view = EntryView {
            id: id.0,
            revision,
            key: key@,
            state: State::Pending(receiver),
        };
        let entry = Entry { id: id.0, revision, key, state: State::Pending(receiver) };
        match found {
            Some(at) => {
                proof {
                    entry_index_bounds(before, id.0, 0);
                }
                self.entries[at] = entry;
                assert(self@ =~= with_entry(before, view));
                assert(one_entry_each(self@)) by {
                    assert forall|i: int, j: int| 0 <= i < j < self@.len() implies (
                    #[trigger] self@[i]).id != (#[trigger] self@[j]).id by {
                        assert(self@[i].id == before[i].id);
                        assert(self@[j].id == before[j].id);
                    }
                }
            },
            None => {
                let at = self.entries.len();
                proof {
                    entry_index_bounds(before, id.0, 0);
                }
                self.entries.push(entry);
                self.places.insert(id.0, at);
                assert(self@ =~= with_entry(before, view));
                assert(one_entry_each(self@)) by {
                    assert forall|i: int, j: int| 0 <= i < j < self@.len() implies (
                    #[trigger] self@[i]).id != (#[trigger] self@[j]).id by {
                        assert(self@[i].id == before[i].id);
                        if j < before.len() {
                            assert(self@[j].id == before[j].id);
                        }
                    }
                }
            },
        }
    }

    /// True when `id` still needs a render for this revision and key, so
    /// the caller can skip building the block projection.
    pub fn needs(&self, id: BlockId, revision: Revision, key: &RenderKey) -> (needs: bool)
        requires
            self.wf(),
        ensures
            needs == !covered(self@, id, revision, key@),
    {
        match self.find(id) {
            Some(at) => {
                assert(self@[at as int] == self.entries@[at as int]@);
                !(self.entries[at].revision == revision && same_key(&self.entries[at].key, key))
            },
            None => true,
        }
    }

    /// Asks every entry that waits and applies every finished answer. Answers
    /// whether anything changed, and the failures among the answers.
    pub fn drain(&mut self) -> (drained: (bool, Vec<Failure>))
        requires
            old(self).wf(),
        ensures
            final(self).wf(),
            exists|replies: Seq<Option<BlockRender>>|
                all_asked(old(self)@, replies) && final(self)@ == #[trigger] settled(
                    old(self)@,
                    replies,
                ) && drained.0 == any_reply(old(self)@, replies) && drained.1@ == failures_of(
                    old(self)@,
                    replies,
                ),
    {
        let ghost before = self@;
        let ghost mut replies: Seq<Option<BlockRender>> = seq![];
        let mut changed = false;
        let mut failures: Vec<Failure> = Vec::new();
        let mut i: usize = 0;
        assert(before.take(0) =~= seq![]);
        while i < self.entries.len()
            invariant
                before == old(self)@,
                old(self).wf(),
                self.places@ == old(self).places@,
                self.entries@.len() == before.len(),
                i <= before.len(),
                replies.len() == i,
                forall|k: int|
                    0 <= k < i ==> ((#[trigger] before[k]).state matches State::Pending(receiver)
                        ==> received(receiver, replies[k])),
                forall|k: int|
                    0 <= k < i ==> (#[trigger] self.entries@[k])@ == settled_entry(
                        before[k],
                        replies[k],
                    ),
                forall|k: int| i <= k < before.len() ==> (#[trigger] self.entries@[k])@ == before[k],
                changed == any_reply(before.take(i as int), replies),
                failures@ == failures_of(before.take(i as int), replies),
            decreases before.len() - i,
        {
            let ghost so_far = replies;
            let ghost entries = self.entries@;
            let reply = match &self.entries[i].state {
                State::Pending(receiver) => try_recv(receiver),
                _ => None,
            };
            proof {
                replies = replies.push(reply);
                assert(before.take(i + 1).drop_last() =~= before.take(i as int));
                assert(replies.drop_last() =~= so_far);
                assert(entries[i as int]@ == before[i as int]);
                assert(any_reply(before.take(i + 1), replies) == (any_reply(
                    before.take(i as int),
                    so_far,
                ) || (before[i as int].state is Pending && reply is Some))) by {
                    let now = before.take(i + 1);
                    let then = before.take(i as int);
                    if any_reply(then, so_far) {
                        let k = choose|k: int|
                            0 <= k < then.len() && (#[trigger] then[k]).state is Pending
                                && so_far[k] is Some;
                        assert(now[k] == then[k]);
                        assert(replies[k] == so_far[k]);
                    }
                    if before[i as int].state is Pending && reply is Some {
                        assert(now[i as int].state is Pending && replies[i as int] is Some);
                    }
                    if any_reply(now, replies) {
                        let k = choose|k: int|
                            0 <= k < now.len() && (#[trigger] now[k]).state is Pending
                                && replies[k] is Some;
                        if k < i {
                            assert(then[k] == now[k]);
                            assert(so_far[k] == replies[k]);
                        }
                    }
                }
            }
            if let Some(reply) = reply {
                let generation = self.entries[i].key.generation;
                let (state, failure) = settle(reply, generation);
                self.entries[i].state = state;
                if let Some(failure) = failure {
                    failures.push(failure);
                }
                changed = true;
            }
            i += 1;
        }
        proof {
            assert(before.take(i as int) =~= before);
            assert(self@ =~= settled(before, replies));
            assert forall|k: int| 0 <= k < before.len() implies (#[trigger] self.entries@[k]).id
                == old(self).entries@[k].id by {
                assert(self.entries@[k]@.id == before[k].id);
                assert(before[k] == old(self).entries@[k]@);
            }
            assert(one_entry_each(self@)) by {
                assert forall|a: int, b: int| 0 <= a < b < self@.len() implies (
                #[trigger] self@[a]).id != (#[trigger] self@[b]).id by {
                    assert(self@[a].id == before[a].id);
                    assert(self@[b].id == before[b].id);
                }
            }
        }
        (changed, failures)
    }

    /// Applies every finished answer, calling `on_failure` with the plugin and
    /// message of each accepted failure so the caller can surface it. Reports
    /// whether anything changed, so the caller can mark the frame dirty. The
    /// callback is called for every failure and only for such; that each call
    /// happens once is not stated.
    pub fn poll<F: FnMut(&Arc<str>, u64, &str)>(&mut self, on_failure: F) -> (changed: bool)
        requires
            old(self).wf(),
            forall|plugin: &Arc<str>, generation: u64, message: &str|
                owed(old(self)@, *plugin, generation, message@) ==> #[trigger] call_requires(
                    on_failure,
                    (plugin, generation, message),
                ),
        ensures
            final(self).wf(),
            exists|replies: Seq<Option<BlockRender>>|
                all_asked(old(self)@, replies) && final(self)@ == #[trigger] settled(
                    old(self)@,
                    replies,
                ) && changed == any_reply(old(self)@, replies) && forall|k: int|
                    0 <= k < failures_of(old(self)@, replies).len() ==> reported(
                        on_failure,
                        #[trigger] failures_of(old(self)@, replies)[k],
                    ),
    {
        let mut report = on_failure;
        let ghost before = self@;
        let (changed, failures) = self.drain();
        let ghost replies = choose|replies: Seq<Option<BlockRender>>|
            all_asked(before, replies) && self@ == #[trigger] settled(before, replies) && changed
                == any_reply(before, replies) && failures@ == failures_of(before, replies);
        proof {
            failures_are_owed(before, replies);
        }
        let mut i: usize = 0;
        while i < failures.len()
            invariant
                i <= failures@.len(),
                failures@ == failures_of(before, replies),
                forall|k: int|
                    0 <= k < failures@.len() ==> owed(
                        before,
                        (#[trigger] failures@[k]).plugin,
                        failures@[k].generation,
                        failures@[k].message@,
                    ),
                forall|plugin: &Arc<str>, generation: u64, message: &str|
                    owed(before, *plugin, generation, message@) ==> #[trigger] call_requires(
                        report,
                        (plugin, generation, message),
                    ),
                report == on_failure,
                forall|k: int| 0 <= k < i ==> reported(on_failure, #[trigger] failures@[k]),
            decreases failures@.len() - i,
        {
            let failure = &failures[i];
            report(&failure.plugin, failure.generation, failure.message.as_str());
            assert(reported(on_failure, failures@[i as int]));
            i += 1;
        }
        assert(settled(before, replies) == self@);
        changed
    }

    /// The rendered objects for `id`, when they match `revision` and `key`.
    pub fn objects(&self, id: BlockId, revision: Revision, key: &RenderKey) -> (objects: Option<
        &Vec<RenderObject>,
    >)
        requires
            self.wf(),
        ensures
            match objects {
                Some(objects) => covered(self@, id, revision, key@) && entry_of(
                    self@,
                    id,
                )->Some_0.state == State::Ready(*objects),
                None => covered(self@, id, revision, key@) ==> !(entry_of(
                    self@,
                    id,
                )->Some_0.state is Ready),
            },
    {
        match self.find(id) {
            Some(at) => {
                assert(self@[at as int] == self.entries@[at as int]@);
                if self.entries[at].revision != revision || !same_key(
                    &self.entries[at].key,
                    key,
                ) {
                    return None;
                }
                match &self.entries[at].state {
                    State::Ready(objects) => Some(objects),
                    _ => None,
                }
            },
            None => None,
        }
    }

    /// True while any block is still waiting on the renderer, so the
    /// caller can schedule a frame instead of sleeping the full idle poll.
    pub fn inflight(&self) -> (waiting: bool)
        ensures
            waiting == exists|i: int|
                0 <= i < self@.len() && (#[trigger] self@[i]).state is Pending,
    {
        let mut i: usize = 0;
        while i < self.entries.len()
            invariant
                i <= self.entries@.len(),
                forall|k: int| 0 <= k < i ==> !((#[trigger] self@[k]).state is Pending),
            decreases self.entries@.len() - i,
        {
            assert(self@[i as int] == self.entries@[i as int]@);
            if let State::Pending(_) = &self.entries[i].state {
                assert(self@[i as int].state is Pending);
                return true;
            }
            i += 1;
        }
        false
    }
}

impl Default for BlockRenderCache {
    fn default() -> (cache: Self)
        ensures
            cache.wf(),
            cache@ == Seq::<EntryView>::empty(),
    {
        let cache = BlockRenderCache { entries: Vec::new(), places: HashMap::new() };
        assert(cache@ =~= Seq::<EntryView>::empty());
        cache
    }
}

/// A well-formed cache has at most one entry for a block, and so at most one
/// request in flight for it.
pub proof fn a_block_has_one_entry(cache: BlockRenderCache)
    requires
        cache.wf(),
    ensures
        one_entry_each(cache@),
{
}

/// A block asked for is covered, and no longer needs asking; every other
/// block's entry stays as it was.
pub proof fn a_request_covers_its_block(entries: Seq<EntryView>, entry: EntryView, other: BlockId)
    requires
        one_entry_each(entries),
    ensures
        one_entry_each(with_entry(entries, entry)),
        entry_of(with_entry(entries, entry), BlockId(entry.id)) == Some(entry),
        covered(with_entry(entries, entry), BlockId(entry.id), entry.revision, entry.key),
        other.0 != entry.id ==> entry_of(with_entry(entries, entry), other) == entry_of(
            entries,
            other,
        ),
{
    let after = with_entry(entries, entry);
    let at = entry_index(entries, entry.id, 0);
    entry_index_bounds(entries, entry.id, 0);
    entry_index_bounds(after, entry.id, 0);
    entry_index_bounds(entries, other.0, 0);
    entry_index_bounds(after, other.0, 0);
    assert(after[at] == entry);
    let first = entry_index(after, entry.id, 0);
    if first < at {
        assert(after[first] == entries[first]);
    }
    assert forall|i: int, j: int| 0 <= i < j < after.len() implies (#[trigger] after[i]).id != (
    #[trigger] after[j]).id by {
        if i != at && j != at {
            assert(after[i] == entries[i]);
            assert(after[j] == entries[j]);
        } else if i == at {
            assert(after[j] == entries[j]);
            if at < entries.len() {
                assert(entries[at].id != entries[j].id);
            }
        } else {
            assert(after[i] == entries[i]);
        }
    }
    if other.0 != entry.id {
        let was = entry_index(entries, other.0, 0);
        let now = entry_index(after, other.0, 0);
        if was < entries.len() {
            assert(after[was] == entries[was]);
            if now < was {
                assert(now != at);
                assert(after[now] == entries[now]);
            }
        } else if now < after.len() {
            assert(now != at);
            assert(after[now] == entries[now]);
        }
    }
}

/// A poll changes no entry's block, revision or key, so what was covered stays
/// covered and what was not still is not.
pub proof fn a_poll_covers_what_was_covered(
    entries: Seq<EntryView>,
    replies: Seq<Option<BlockRender>>,
    id: BlockId,
    revision: Revision,
    key: KeyView,
)
    requires
        replies.len() == entries.len(),
    ensures
        covered(settled(entries, replies), id, revision, key) == covered(
            entries,
            id,
            revision,
            key,
        ),
        one_entry_each(entries) ==> one_entry_each(settled(entries, replies)),
{
    let after = settled(entries, replies);
    entry_index_bounds(entries, id.0, 0);
    entry_index_bounds(after, id.0, 0);
    let was = entry_index(entries, id.0, 0);
    let now = entry_index(after, id.0, 0);
    if was < now {
        assert(after[was].id == entries[was].id);
    }
    if now < was {
        assert(after[now].id == entries[now].id);
    }
    if one_entry_each(entries) {
        assert forall|i: int, j: int| 0 <= i < j < after.len() implies (#[trigger] after[i]).id != (
        #[trigger] after[j]).id by {
            assert(entries[i].id != entries[j].id);
        }
    }
}

/// What is ready or skipped stays so: a reply lands only where one is waited
/// for.
pub proof fn a_settled_entry_stays_settled(entry: EntryView, reply: Option<BlockRender>)
    ensures
        !(entry.state is Pending) ==> settled_entry(entry, reply) == entry,
        entry.state is Pending && reply is Some ==> !(settled_entry(
            entry,
            reply,
        ).state is Pending),
{
}

/// A block asked for under another key, or in another revision, is not
/// covered: a stale render is never handed out for the new one.
pub proof fn another_key_or_revision_is_not_covered(
    entries: Seq<EntryView>,
    id: BlockId,
    revision: Revision,
    key: KeyView,
    other_revision: Revision,
    other_key: KeyView,
)
    requires
        covered(entries, id, revision, key),
        other_revision != revision || other_key != key,
    ensures
        !covered(entries, id, other_revision, other_key),
{
}

} // verus!
