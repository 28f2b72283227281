//! The messages of a conversation, one behind the other and put together.

use crate::keyed::KeyedMap;
use crate::normalize;
use crate::normalize::add_resource;
use crate::text;
use crate::types;
use crate::types::{
    share, share_all, BatchConfig, BatchedMessage, BatchedView, IncomingMessage,
    MediaBatchConfig, Mention, MentionView, MessageView, Resource, ResourceView,
};
use std::sync::Arc;
use vstd::prelude::*;

verus! {

// ── several messages as one ──

/// The texts that are not empty, in their order.
pub open spec fn spoken(batch: Seq<Arc<IncomingMessage>>) -> Seq<Seq<char>>
    decreases batch.len(),
{
    if batch.len() == 0 {
        Seq::empty()
    } else if batch.last()@.text.len() == 0 {
        spoken(batch.drop_last())
    } else {
        spoken(batch.drop_last()).push(batch.last()@.text)
    }
}

/// The resources of all messages in their order.
pub open spec fn all_resources(batch: Seq<Arc<IncomingMessage>>) -> Seq<ResourceView>
    decreases batch.len(),
{
    if batch.len() == 0 {
        Seq::empty()
    } else {
        all_resources(batch.drop_last()) + batch.last()@.resources
    }
}

/// The mentions of all messages in their order.
pub open spec fn all_mentions(batch: Seq<Arc<IncomingMessage>>) -> Seq<MentionView>
    decreases batch.len(),
{
    if batch.len() == 0 {
        Seq::empty()
    } else {
        all_mentions(batch.drop_last()) + batch.last()@.mentions
    }
}

/// Of the resources with one download code the first.
pub open spec fn first_resources(rs: Seq<ResourceView>) -> Seq<ResourceView>
    decreases rs.len(),
{
    if rs.len() == 0 {
        Seq::empty()
    } else {
        let before = first_resources(rs.drop_last());
        if normalize::has_code(before, rs.last().download_code) {
            before
        } else {
            before.push(rs.last())
        }
    }
}

/// What a mention is known by: the user, or the name where there is none.
pub open spec fn mention_key(m: MentionView) -> Seq<char> {
    if m.user_id.len() == 0 {
        m.name
    } else {
        m.user_id
    }
}

/// Whether one of the mentions has a key.
pub open spec fn has_mention(ms: Seq<MentionView>, key: Seq<char>) -> bool {
    exists|i: int| 0 <= i < ms.len() && mention_key(#[trigger] ms[i]) == key
}

/// Of the mentions with one key the first.
pub open spec fn first_mentions(ms: Seq<MentionView>) -> Seq<MentionView>
    decreases ms.len(),
{
    if ms.len() == 0 {
        Seq::empty()
    } else {
        let before = first_mentions(ms.drop_last());
        if has_mention(before, mention_key(ms.last())) {
            before
        } else {
            before.push(ms.last())
        }
    }
}

/// Whether one of the messages mentions everybody.
pub open spec fn any_mentions_all(batch: Seq<Arc<IncomingMessage>>) -> bool {
    exists|i: int| 0 <= i < batch.len() && (#[trigger] batch[i])@.mention_all
}

/// Several messages as one: the last of them, with the texts of all between
/// blank lines, and their resources and mentions, each once. One message alone
/// is itself.
pub open spec fn merged(batch: Seq<Arc<IncomingMessage>>) -> MessageView {
    if batch.len() == 1 {
        MessageView { batched_sources: batch, ..batch[0]@ }
    } else {
        MessageView {
            text: text::join(spoken(batch), "\n\n"@),
            mention_all: any_mentions_all(batch),
            resources: first_resources(all_resources(batch)),
            mentions: first_mentions(all_mentions(batch)),
            batched_sources: batch,
            ..batch.last()@
        }
    }
}

/// The keys of the messages in their order.
pub open spec fn ids(batch: Seq<Arc<IncomingMessage>>) -> Seq<Seq<char>> {
    Seq::new(batch.len(), |i: int| batch[i]@.msg_id)
}

/// Several messages as they are handed out.
pub open spec fn batched(batch: Seq<Arc<IncomingMessage>>) -> BatchedView {
    BatchedView { message: merged(batch), source_ids: ids(batch) }
}

/// Adds a mention, unless one with its key is there already.
fn add_mention(out: &mut Vec<Mention>, m: Mention)
    ensures
        types::views(final(out)@) == (if has_mention(
            types::views(old(out)@),
            mention_key(m@),
        ) {
            types::views(old(out)@)
        } else {
            types::views(old(out)@).push(m@)
        }),
{
    let mut i: usize = 0;
    while i < out.len()
        invariant
            i <= out@.len(),
            out@ == old(out)@,
            forall|k: int|
                0 <= k < i ==> mention_key(#[trigger] types::views(out@)[k]) != mention_key(m@),
        decreases out@.len() - i,
    {
        let same = text::same(key_of(&out[i]), key_of(&m));
        if same {
            assert(mention_key(types::views(out@)[i as int]) == mention_key(m@));
            return;
        }
        i += 1;
    }
    let ghost before = out@;
    out.push(m);
    assert(types::views(out@) =~= types::views(before).push(m@));
}

fn key_of(m: &Mention) -> (r: &str)
    ensures
        r@ == mention_key(m@),
{
    if m.user_id.as_str().is_empty() {
        m.name.as_str()
    } else {
        m.user_id.as_str()
    }
}

/// Adding some more resources is the same as adding them to all before.
proof fn lemma_first_resources_step(all: Seq<ResourceView>, more: Seq<ResourceView>, i: int)
    requires
        0 <= i < more.len(),
    ensures
        (all + more.take(i + 1)).drop_last() == all + more.take(i),
        (all + more.take(i + 1)).last() == more[i],
{
    assert((all + more.take(i + 1)).drop_last() =~= all + more.take(i));
}

proof fn lemma_first_mentions_step(all: Seq<MentionView>, more: Seq<MentionView>, i: int)
    requires
        0 <= i < more.len(),
    ensures
        (all + more.take(i + 1)).drop_last() == all + more.take(i),
        (all + more.take(i + 1)).last() == more[i],
{
    assert((all + more.take(i + 1)).drop_last() =~= all + more.take(i));
}

/// Several messages as one.
pub fn merge_batch_messages(batch: &Vec<Arc<IncomingMessage>>) -> (r: IncomingMessage)
    requires
        batch@.len() > 0,
    ensures
        r@ == merged(batch@),
{
    let n: usize = batch.len();
    if n == 1 {
        let mut one = (*batch[0]).clone();
        one.batched_sources = share_all(batch);
        return one;
    }
    let mut texts: Vec<String> = Vec::new();
    let mut all = false;
    let mut resources: Vec<Resource> = Vec::new();
    let mut mentions: Vec<Mention> = Vec::new();
    let mut i: usize = 0;
    proof {
        assert(batch@.take(0) =~= Seq::empty());
        assert(text::texts(texts@) =~= Seq::empty());
        assert(types::views(resources@) =~= Seq::empty());
        assert(types::views(mentions@) =~= Seq::empty());
    }
    while i < n
        invariant
            i <= n,
            n == batch@.len(),
            text::texts(texts@) == spoken(batch@.take(i as int)),
            all == (exists|k: int| 0 <= k < i && (#[trigger] batch@[k])@.mention_all),
            types::views(resources@) == first_resources(all_resources(batch@.take(i as int))),
            types::views(mentions@) == first_mentions(all_mentions(batch@.take(i as int))),
        decreases n - i,
    {
        let m: &IncomingMessage = &*batch[i];
        let ghost so_far = batch@.take(i as int);
        proof {
            assert(batch@.take(i + 1).drop_last() =~= so_far);
            assert(batch@.take(i + 1).last() == batch@[i as int]);
        }
        if !m.text.as_str().is_empty() {
            let ghost before = texts@;
            texts.push(m.text.clone());
            assert(text::texts(texts@) =~= text::texts(before).push(m.text@));
        }
        if m.mention_all {
            all = true;
            assert(batch@[i as int]@.mention_all);
        }
        let mut j: usize = 0;
        let ghost more = m@.resources;
        assert(all_resources(so_far) + more.take(0) =~= all_resources(so_far));
        while j < m.resources.len()
            invariant
                j <= m.resources@.len(),
                more == types::views(m.resources@),
                types::views(resources@) == first_resources(
                    all_resources(so_far) + more.take(j as int),
                ),
            decreases m.resources@.len() - j,
        {
            let r = m.resources[j].clone();
            proof {
                lemma_first_resources_step(all_resources(so_far), more, j as int);
                assert(more[j as int] == r@);
            }
            add_resource(&mut resources, r);
            j += 1;
        }
        assert(more.take(j as int) =~= more);
        let mut k: usize = 0;
        let ghost said = m@.mentions;
        assert(all_mentions(so_far) + said.take(0) =~= all_mentions(so_far));
        while k < m.mentions.len()
            invariant
                k <= m.mentions@.len(),
                said == types::views(m.mentions@),
                types::views(mentions@) == first_mentions(
                    all_mentions(so_far) + said.take(k as int),
                ),
            decreases m.mentions@.len() - k,
        {
            let x = m.mentions[k].clone();
            proof {
                lemma_first_mentions_step(all_mentions(so_far), said, k as int);
                assert(said[k as int] == x@);
            }
            add_mention(&mut mentions, x);
            k += 1;
        }
        assert(said.take(k as int) =~= said);
        i += 1;
    }
    assert(batch@.take(i as int) =~= batch@);
    let mut r = (*batch[n - 1]).clone();
    r.text = text::joined_texts(&texts, "\n\n");
    r.mention_all = all;
    r.resources = resources;
    r.mentions = mentions;
    r.batched_sources = share_all(batch);
    r
}

/// Several messages as they are handed out.
pub fn batch_of(batch: &Vec<Arc<IncomingMessage>>) -> (r: BatchedMessage)
    requires
        batch@.len() > 0,
    ensures
        r@ == batched(batch@),
{
    let mut source_ids: Vec<String> = Vec::new();
    let mut i: usize = 0;
    while i < batch.len()
        invariant
            i <= batch@.len(),
            text::texts(source_ids@) =~= ids(batch@).take(i as int),
        decreases batch@.len() - i,
    {
        let ghost before = source_ids@;
        let id = batch[i].msg_id.clone();
        source_ids.push(id);
        proof {
            assert(text::texts(source_ids@) =~= text::texts(before).push(id@));
            assert(ids(batch@).take(i + 1) =~= ids(batch@).take(i as int).push(
                ids(batch@)[i as int],
            ));
        }
        i += 1;
    }
    assert(ids(batch@).take(i as int) =~= ids(batch@));
    BatchedMessage { message: Arc::new(merge_batch_messages(batch)), source_ids }
}

/// No download code stands twice among the resources of a merged message.
pub proof fn merged_resources_are_distinct(rs: Seq<ResourceView>)
    ensures
        forall|i: int, j: int|
            0 <= i < j < first_resources(rs).len() ==> (#[trigger] first_resources(
                rs,
            )[i]).download_code != (#[trigger] first_resources(rs)[j]).download_code,
    decreases rs.len(),
{
    if rs.len() > 0 {
        merged_resources_are_distinct(rs.drop_last());
        let before = first_resources(rs.drop_last());
        let after = first_resources(rs);
        assert forall|i: int, j: int| 0 <= i < j < after.len() implies (
        #[trigger] after[i]).download_code != (#[trigger] after[j]).download_code by {
            assert(after[i] == before[i]);
            if j < before.len() {
                assert(after[j] == before[j]);
            }
        }
    }
}

/// Every resource of a batch is found in the merged message by its code.
pub proof fn merged_resources_are_complete(rs: Seq<ResourceView>, i: int)
    requires
        0 <= i < rs.len(),
    ensures
        normalize::has_code(first_resources(rs), rs[i].download_code),
    decreases rs.len(),
{
    let before = first_resources(rs.drop_last());
    let after = first_resources(rs);
    if i < rs.len() - 1 {
        merged_resources_are_complete(rs.drop_last(), i);
        let k = choose|k: int|
            0 <= k < before.len() && (#[trigger] before[k]).download_code == rs[i].download_code;
        assert(after[k] == before[k]);
    } else if !normalize::has_code(before, rs.last().download_code) {
        assert(after[after.len() - 1].download_code == rs[i].download_code);
    }
}

/// No key stands twice among the mentions of a merged message.
pub proof fn merged_mentions_are_distinct(ms: Seq<MentionView>)
    ensures
        forall|i: int, j: int|
            0 <= i < j < first_mentions(ms).len() ==> mention_key(#[trigger] first_mentions(ms)[i])
                != mention_key(#[trigger] first_mentions(ms)[j]),
    decreases ms.len(),
{
    if ms.len() > 0 {
        merged_mentions_are_distinct(ms.drop_last());
        let before = first_mentions(ms.drop_last());
        let after = first_mentions(ms);
        assert forall|i: int, j: int| 0 <= i < j < after.len() implies mention_key(
            #[trigger] after[i],
        ) != mention_key(#[trigger] after[j]) by {
            assert(after[i] == before[i]);
            if j < before.len() {
                assert(after[j] == before[j]);
            }
        }
    }
}

/// Every mention of a batch is found in the merged message by its key.
pub proof fn merged_mentions_are_complete(ms: Seq<MentionView>, i: int)
    requires
        0 <= i < ms.len(),
    ensures
        has_mention(first_mentions(ms), mention_key(ms[i])),
    decreases ms.len(),
{
    let before = first_mentions(ms.drop_last());
    let after = first_mentions(ms);
    if i < ms.len() - 1 {
        merged_mentions_are_complete(ms.drop_last(), i);
        let k = choose|k: int|
            0 <= k < before.len() && mention_key(#[trigger] before[k]) == mention_key(ms[i]);
        assert(after[k] == before[k]);
    } else if !has_mention(before, mention_key(ms.last())) {
        assert(mention_key(after[after.len() - 1]) == mention_key(ms[i]));
    }
}

/// A text that says something is one of those that the merged message is made
/// of.
proof fn lemma_spoken(batch: Seq<Arc<IncomingMessage>>, i: int) -> (k: int)
    requires
        0 <= i < batch.len(),
        batch[i]@.text.len() > 0,
    ensures
        0 <= k < spoken(batch).len(),
        spoken(batch)[k] == batch[i]@.text,
    decreases batch.len(),
{
    if i == batch.len() - 1 {
        spoken(batch).len() - 1
    } else {
        lemma_spoken(batch.drop_last(), i)
    }
}

/// What a message of a batch says stands in the text of the merged message.
pub proof fn merged_text_holds_every_text(batch: Seq<Arc<IncomingMessage>>, i: int)
    requires
        0 <= i < batch.len(),
    ensures
        text::occurs(merged(batch).text, batch[i]@.text),
{
    let said = batch[i]@.text;
    let all = merged(batch).text;
    if batch.len() == 1 {
        assert(all.subrange(0, said.len() as int) =~= said);
        assert(text::occurs_at(all, said, 0));
    } else if said.len() == 0 {
        assert(all.subrange(0, 0) =~= said);
        assert(text::occurs_at(all, said, 0));
    } else {
        let k = lemma_spoken(batch, i);
        text::joined_text_holds_its_parts(spoken(batch), "\n\n"@, k);
    }
}

// ── the queue of one conversation ──

/// The characters of the texts.
pub open spec fn total_chars(batch: Seq<Arc<IncomingMessage>>) -> nat
    decreases batch.len(),
{
    if batch.len() == 0 {
        0
    } else {
        total_chars(batch.drop_last()) + batch.last()@.text.len()
    }
}

/// How many of the messages carry media.
pub open spec fn media_count(batch: Seq<Arc<IncomingMessage>>) -> nat
    decreases batch.len(),
{
    if batch.len() == 0 {
        0
    } else if batch.last()@.resources.len() == 0 {
        media_count(batch.drop_last())
    } else {
        media_count(batch.drop_last()) + 1
    }
}

/// Whether no other message can be put to these: there are so many, their texts
/// are so long, or, where media are put together, so many of them carry media.
pub open spec fn full(
    batch: Seq<Arc<IncomingMessage>>,
    cfg: BatchConfig,
    media: MediaBatchConfig,
) -> bool {
    ||| batch.len() >= cfg.max_messages
    ||| total_chars(batch) >= cfg.max_chars
    ||| media.enabled && media_count(batch) > 0 && media_count(batch) >= media.max_items
}

/// How long to wait for another message behind the last of these.
pub open spec fn wait_ms(
    batch: Seq<Arc<IncomingMessage>>,
    cfg: BatchConfig,
    media: MediaBatchConfig,
) -> u64 {
    if media.enabled && batch.last()@.resources.len() > 0 {
        media.delay_ms
    } else if total_chars(batch) >= cfg.long_threshold_chars {
        cfg.long_delay_ms
    } else {
        cfg.delay_ms
    }
}

/// The messages as they are handed out: put together, or each alone.
pub open spec fn handed_out(batch: Seq<Arc<IncomingMessage>>, serial_only: bool) -> Seq<
    BatchedView,
> {
    if batch.len() == 0 {
        Seq::empty()
    } else if serial_only {
        Seq::new(batch.len(), |i: int| batched(seq![batch[i]]))
    } else {
        seq![batched(batch)]
    }
}

/// What to do behind a message.
#[derive(Debug)]
pub enum QueueStep {
    /// Hand these out, one behind the other.
    Dispatch(Vec<BatchedMessage>),
    /// Wait, and then ask with the number whether anything is to be handed out.
    Wait { delay_ms: u64, generation: u64 },
}

/// The number of the wait behind another one.
pub open spec fn wait_behind(n: u64) -> u64 {
    if n == u64::MAX {
        0
    } else {
        (n + 1) as u64
    }
}

/// The messages of one conversation that were not handed out yet.
#[derive(Debug)]
pub struct ChatQueue {
    batch_cfg: BatchConfig,
    media_batch: MediaBatchConfig,
    serial_only: bool,
    buffer: Vec<Arc<IncomingMessage>>,
    buffer_chars: usize,
    media_items: usize,
    generation: u64,
}

impl ChatQueue {
    /// The messages that were not handed out yet.
    pub closed spec fn waiting(&self) -> Seq<Arc<IncomingMessage>> {
        self.buffer@
    }

    /// Whether every message is handed out alone.
    pub closed spec fn serial(&self) -> bool {
        self.serial_only
    }

    pub closed spec fn batching(&self) -> BatchConfig {
        self.batch_cfg
    }

    pub closed spec fn media(&self) -> MediaBatchConfig {
        self.media_batch
    }

    /// The number of the last wait.
    pub closed spec fn last_wait(&self) -> u64 {
        self.generation
    }

    /// The counts go with the messages.
    pub closed spec fn wf(&self) -> bool {
        &&& self.buffer_chars == (if total_chars(self.buffer@) > usize::MAX {
            usize::MAX as nat
        } else {
            total_chars(self.buffer@)
        })
        &&& self.media_items == media_count(self.buffer@)
    }

    /// Two queues that differ in nothing but their messages and waits.
    pub open spec fn same_rules(&self, other: &ChatQueue) -> bool {
        &&& self.serial() == other.serial()
        &&& self.batching() == other.batching()
        &&& self.media() == other.media()
    }

    pub fn new(batch_cfg: BatchConfig, media_batch: MediaBatchConfig, serial_only: bool) -> (r:
        ChatQueue)
        ensures
            r.wf(),
            r.waiting() == Seq::<Arc<IncomingMessage>>::empty(),
            r.serial() == serial_only,
            r.batching() == batch_cfg,
            r.media() == media_batch,
            r.last_wait() == 0,
    {
        ChatQueue {
            batch_cfg,
            media_batch,
            serial_only,
            buffer: Vec::new(),
            buffer_chars: 0,
            media_items: 0,
            generation: 0,
        }
    }

    /// Takes a message in. It is handed out at once with those before it where
    /// the batch is full or nothing is to be waited for.
    pub fn push(&mut self, msg: Arc<IncomingMessage>) -> (r: QueueStep)
        requires
            old(self).wf(),
        ensures
            final(self).wf(),
            final(self).same_rules(old(self)),
            ({
                let all = old(self).waiting().push(msg);
                if full(all, old(self).batching(), old(self).media())
                    || old(self).batching().delay_ms == 0 || old(self).serial() {
                    &&& r matches QueueStep::Dispatch(out) && types::views(out@) == handed_out(
                        all,
                        old(self).serial(),
                    )
                    &&& final(self).waiting() == Seq::<Arc<IncomingMessage>>::empty()
                    &&& final(self).last_wait() == old(self).last_wait()
                } else {
                    &&& r == (QueueStep::Wait {
                        delay_ms: wait_ms(all, old(self).batching(), old(self).media()),
                        generation: final(self).last_wait(),
                    })
                    &&& final(self).waiting() == all
                    &&& final(self).last_wait() == wait_behind(old(self).last_wait())
                }
            }),
    {
        let n: usize = text::chars_of(msg.text.as_str()).len();
        let has_media = msg.resources.len() > 0;
        let ghost before = self.buffer@;
        proof {
            lemma_media_count(before);
        }
        self.buffer.push(msg);
        let held: usize = self.buffer.len();
        proof {
            assert(self.buffer@.drop_last() =~= before);
            assert(before.len() < held);
        }
        self.buffer_chars = if n > usize::MAX - self.buffer_chars {
            usize::MAX
        } else {
            self.buffer_chars + n
        };
        if has_media {
            self.media_items = self.media_items + 1;
        }
        let is_full = held >= self.batch_cfg.max_messages || self.buffer_chars
            >= self.batch_cfg.max_chars || (self.media_batch.enabled && self.media_items > 0
            && self.media_items >= self.media_batch.max_items);
        if is_full || self.batch_cfg.delay_ms == 0 || self.serial_only {
            return QueueStep::Dispatch(self.enqueue_flush());
        }
        let delay_ms = if self.media_batch.enabled && has_media {
            self.media_batch.delay_ms
        } else if self.buffer_chars >= self.batch_cfg.long_threshold_chars {
            self.batch_cfg.long_delay_ms
        } else {
            self.batch_cfg.delay_ms
        };
        self.generation = if self.generation == u64::MAX {
            0
        } else {
            self.generation + 1
        };
        QueueStep::Wait { delay_ms, generation: self.generation }
    }

    /// Hands out what is waiting.
    pub fn enqueue_flush(&mut self) -> (r: Vec<BatchedMessage>)
        ensures
            final(self).wf(),
            final(self).same_rules(old(self)),
            types::views(r@) == handed_out(old(self).waiting(), old(self).serial()),
            final(self).waiting() == Seq::<Arc<IncomingMessage>>::empty(),
            final(self).last_wait() == old(self).last_wait(),
    {
        let mut out: Vec<BatchedMessage> = Vec::new();
        let n: usize = self.buffer.len();
        if n > 0 {
            if self.serial_only {
                let ghost all = handed_out(self.buffer@, true);
                let mut i: usize = 0;
                while i < n
                    invariant
                        i <= n,
                        n == self.buffer@.len(),
                        n > 0,
                        *self == *old(self),
                        all == handed_out(self.buffer@, true),
                        types::views(out@) =~= all.take(i as int),
                    decreases n - i,
                {
                    let mut one: Vec<Arc<IncomingMessage>> = Vec::new();
                    one.push(share(&self.buffer[i]));
                    assert(one@ =~= seq![self.buffer@[i as int]]);
                    let b = batch_of(&one);
                    let ghost so_far = out@;
                    out.push(b);
                    proof {
                        assert(types::views(out@) =~= types::views(so_far).push(b@));
                        assert(all.take(i + 1) =~= all.take(i as int).push(all[i as int]));
                    }
                    i += 1;
                }
                assert(all.take(i as int) =~= all);
            } else {
                out.push(batch_of(&self.buffer));
                assert(types::views(out@) =~= handed_out(self.buffer@, false));
            }
        } else {
            assert(types::views(out@) =~= handed_out(self.buffer@, self.serial_only));
        }
        self.buffer = Vec::new();
        self.buffer_chars = 0;
        self.media_items = 0;
        out
    }

    /// Hands out what is waiting, if the wait with the number is the last one.
    /// A message behind the one that the wait was for makes it void.
    pub fn wait_over(&mut self, generation: u64) -> (r: Vec<BatchedMessage>)
        requires
            old(self).wf(),
        ensures
            final(self).wf(),
            final(self).same_rules(old(self)),
            final(self).last_wait() == old(self).last_wait(),
            generation == old(self).last_wait() ==> types::views(r@) == handed_out(
                old(self).waiting(),
                old(self).serial(),
            ) && final(self).waiting() == Seq::<Arc<IncomingMessage>>::empty(),
            generation != old(self).last_wait() ==> r@.len() == 0 && final(self).waiting()
                == old(self).waiting(),
    {
        if generation == self.generation {
            self.enqueue_flush()
        } else {
            Vec::new()
        }
    }
}

/// No more messages carry media than there are.
proof fn lemma_media_count(batch: Seq<Arc<IncomingMessage>>)
    ensures
        media_count(batch) <= batch.len(),
    decreases batch.len(),
{
    if batch.len() > 0 {
        lemma_media_count(batch.drop_last());
    }
}

/// The messages behind what was handed out, in their order.
pub open spec fn sources(out: Seq<BatchedView>) -> Seq<Arc<IncomingMessage>>
    decreases out.len(),
{
    if out.len() == 0 {
        Seq::empty()
    } else {
        sources(out.drop_last()) + out.last().message.batched_sources
    }
}

/// What is handed out holds every message that waited, once and in its order.
pub proof fn nothing_is_lost(batch: Seq<Arc<IncomingMessage>>, serial_only: bool)
    ensures
        sources(handed_out(batch, serial_only)) == batch,
    decreases batch.len(),
{
    let out = handed_out(batch, serial_only);
    if batch.len() == 0 {
        assert(out =~= Seq::empty());
        assert(sources(out) =~= batch);
    } else if serial_only {
        let before = batch.drop_last();
        nothing_is_lost(before, true);
        if before.len() > 0 {
            assert(out.drop_last() =~= handed_out(before, true));
        } else {
            assert(out.drop_last() =~= Seq::empty());
            assert(handed_out(before, true) =~= Seq::empty());
        }
        assert(out.last() == batched(seq![batch.last()]));
        assert(out.last().message.batched_sources =~= seq![batch.last()]);
        assert(sources(out) =~= batch);
    } else {
        assert(out.drop_last() =~= Seq::empty());
        assert(sources(out.drop_last()) =~= Seq::empty());
        assert(sources(out) =~= batch);
    }
}

/// What is handed out names the key of every message that waited, in order.
pub proof fn source_ids_go_with_the_sources(batch: Seq<Arc<IncomingMessage>>)
    ensures
        batched(batch).source_ids.len() == batched(batch).message.batched_sources.len(),
        forall|i: int|
            0 <= i < batch.len() ==> (#[trigger] batched(batch).source_ids[i]) == batched(
                batch,
            ).message.batched_sources[i]@.msg_id,
{
}

// ── the queues of all conversations ──

/// The queues by conversation.
#[derive(Debug)]
pub struct ChatQueueManager {
    batch_cfg: BatchConfig,
    media_batch: MediaBatchConfig,
    enabled: bool,
    queues: KeyedMap<ChatQueue>,
}

impl ChatQueueManager {
    /// The queues by conversation.
    pub closed spec fn queues(&self) -> Map<Seq<char>, ChatQueue> {
        self.queues@
    }

    pub closed spec fn is_enabled(&self) -> bool {
        self.enabled
    }

    pub closed spec fn batching(&self) -> BatchConfig {
        self.batch_cfg
    }

    pub closed spec fn media(&self) -> MediaBatchConfig {
        self.media_batch
    }

    pub closed spec fn wf(&self) -> bool {
        &&& self.queues.wf()
        &&& forall|k: Seq<char>|
            #![trigger self.queues@[k]]
            self.queues@.contains_key(k) ==> self.has_rules(&self.queues@[k])
    }

    /// A queue keeps its counts and goes by the rules of all.
    pub closed spec fn has_rules(&self, q: &ChatQueue) -> bool {
        &&& q.wf()
        &&& q.batching() == self.batch_cfg
        &&& q.media() == self.media_batch
    }

    /// Two managers that differ in nothing but their queues.
    pub open spec fn same_rules(&self, other: &ChatQueueManager) -> bool {
        &&& self.is_enabled() == other.is_enabled()
        &&& self.batching() == other.batching()
        &&& self.media() == other.media()
    }

    /// The messages of a conversation that were not handed out yet.
    pub open spec fn waiting(&self, scope: Seq<char>) -> Seq<Arc<IncomingMessage>> {
        if self.queues().contains_key(scope) {
            self.queues()[scope].waiting()
        } else {
            Seq::empty()
        }
    }

    /// Whether the messages of a conversation are handed out alone: what the
    /// first use of its queue was for decides.
    pub open spec fn serial(&self, scope: Seq<char>, wanted: bool) -> bool {
        if self.queues().contains_key(scope) {
            self.queues()[scope].serial()
        } else {
            wanted
        }
    }

    /// The number of the last wait in a conversation.
    pub open spec fn last_wait(&self, scope: Seq<char>) -> u64 {
        if self.queues().contains_key(scope) {
            self.queues()[scope].last_wait()
        } else {
            0
        }
    }

    pub fn new(batch_cfg: BatchConfig, queue_enabled: bool, media_batch: MediaBatchConfig) -> (r:
        ChatQueueManager)
        ensures
            r.wf(),
            r.is_enabled() == queue_enabled,
            r.batching() == batch_cfg,
            r.media() == media_batch,
            r.queues() == Map::<Seq<char>, ChatQueue>::empty(),
    {
        ChatQueueManager { batch_cfg, media_batch, enabled: queue_enabled, queues: KeyedMap::new() }
    }

    pub fn enabled(&self) -> (r: bool)
        ensures
            r == self.is_enabled(),
    {
        self.enabled
    }

    /// Takes the queue of a conversation out, a fresh one where there is none.
    fn take_queue(&mut self, scope: &str, serial_only: bool) -> (q: ChatQueue)
        requires
            old(self).wf(),
        ensures
            final(self).wf(),
            final(self).same_rules(old(self)),
            final(self).queues() == old(self).queues().remove(scope@),
            old(self).has_rules(&q),
            q.wf(),
            old(self).queues().contains_key(scope@) ==> q == old(self).queues()[scope@],
            !old(self).queues().contains_key(scope@) ==> {
                &&& q.waiting() == Seq::<Arc<IncomingMessage>>::empty()
                &&& q.serial() == serial_only
                &&& q.batching() == old(self).batching()
                &&& q.media() == old(self).media()
                &&& q.last_wait() == 0
            },
    {
        let ghost before = self.queues@;
        match self.queues.take(scope) {
            Some(q) => {
                assert(before[scope@] == q);
                assert forall|k: Seq<char>|
                    #![trigger self.queues@[k]]
                    self.queues@.contains_key(k) implies self.has_rules(&self.queues@[k]) by {
                    assert(self.queues@[k] == before[k]);
                }
                q
            },
            None => {
                assert forall|k: Seq<char>|
                    #![trigger self.queues@[k]]
                    self.queues@.contains_key(k) implies self.has_rules(&self.queues@[k]) by {
                    assert(self.queues@[k] == before[k]);
                }
                ChatQueue::new(self.batch_cfg, self.media_batch, serial_only)
            },
        }
    }

    /// Puts the queue of a conversation back.
    fn put_queue(&mut self, scope: &str, q: ChatQueue)
        requires
            old(self).wf(),
            old(self).has_rules(&q),
        ensures
            final(self).wf(),
            final(self).same_rules(old(self)),
            final(self).queues() == old(self).queues().insert(scope@, q),
    {
        let ghost before = self.queues@;
        self.queues.insert(text::owned(scope), q);
        assert forall|k: Seq<char>|
            #![trigger self.queues@[k]]
            self.queues@.contains_key(k) implies self.has_rules(&self.queues@[k]) by {
            if k != scope@ {
                assert(self.queues@[k] == before[k]);
            }
        }
    }

    /// Takes a message of a conversation in.
    pub fn push(&mut self, scope: &str, msg: Arc<IncomingMessage>) -> (r: QueueStep)
        requires
            old(self).wf(),
        ensures
            final(self).wf(),
            final(self).same_rules(old(self)),
            final(self).queues().remove(scope@) =~= old(self).queues().remove(scope@),
            final(self).queues().contains_key(scope@),
            final(self).serial(scope@, false) == old(self).serial(scope@, false),
            ({
                let all = old(self).waiting(scope@).push(msg);
                let serial = old(self).serial(scope@, false);
                if full(all, old(self).batching(), old(self).media())
                    || old(self).batching().delay_ms == 0 || serial {
                    &&& r matches QueueStep::Dispatch(out) && types::views(out@) == handed_out(
                        all,
                        serial,
                    )
                    &&& final(self).waiting(scope@) == Seq::<Arc<IncomingMessage>>::empty()
                    &&& final(self).last_wait(scope@) == old(self).last_wait(scope@)
                } else {
                    &&& r == (QueueStep::Wait {
                        delay_ms: wait_ms(all, old(self).batching(), old(self).media()),
                        generation: final(self).last_wait(scope@),
                    })
                    &&& final(self).waiting(scope@) == all
                    &&& final(self).last_wait(scope@) == wait_behind(old(self).last_wait(scope@))
                }
            }),
    {
        let mut q = self.take_queue(scope, false);
        let r = q.push(msg);
        self.put_queue(scope, q);
        r
    }

    /// Hands out what waits in a conversation before something else of that
    /// conversation is run.
    pub fn run_serial(&mut self, scope: &str) -> (r: Vec<BatchedMessage>)
        requires
            old(self).wf(),
        ensures
            final(self).wf(),
            final(self).same_rules(old(self)),
            final(self).queues().remove(scope@) =~= old(self).queues().remove(scope@),
            final(self).queues().contains_key(scope@),
            final(self).serial(scope@, true) == old(self).serial(scope@, true),
            types::views(r@) == handed_out(
                old(self).waiting(scope@),
                old(self).serial(scope@, true),
            ),
            final(self).waiting(scope@) == Seq::<Arc<IncomingMessage>>::empty(),
            final(self).last_wait(scope@) == old(self).last_wait(scope@),
    {
        let mut q = self.take_queue(scope, true);
        let r = q.enqueue_flush();
        self.put_queue(scope, q);
        r
    }

    /// Hands out what waits in a conversation, if the wait with the number is
    /// its last one.
    pub fn wait_over(&mut self, scope: &str, generation: u64) -> (r: Vec<BatchedMessage>)
        requires
            old(self).wf(),
        ensures
            final(self).wf(),
            final(self).same_rules(old(self)),
            final(self).queues().remove(scope@) =~= old(self).queues().remove(scope@),
            final(self).queues().contains_key(scope@) == old(self).queues().contains_key(scope@),
            final(self).serial(scope@, false) == old(self).serial(scope@, false),
            final(self).last_wait(scope@) == old(self).last_wait(scope@),
            ({
                let due = old(self).queues().contains_key(scope@)
                    && old(self).queues()[scope@].last_wait() == generation;
                &&& due ==> types::views(r@) == handed_out(
                    old(self).waiting(scope@),
                    old(self).serial(scope@, false),
                ) && final(self).waiting(scope@) == Seq::<Arc<IncomingMessage>>::empty()
                &&& !due ==> r@.len() == 0 && final(self).waiting(scope@) == old(self).waiting(
                    scope@,
                )
            }),
    {
        if !self.queues.contains_key(scope) {
            return Vec::new();
        }
        let mut q = self.take_queue(scope, false);
        let r = q.wait_over(generation);
        self.put_queue(scope, q);
        r
    }

    /// Hands out what waits in every conversation.
    pub fn flush_all(&mut self) -> (r: Vec<(String, Vec<BatchedMessage>)>)
        requires
            old(self).wf(),
        ensures
            final(self).wf(),
            final(self).same_rules(old(self)),
            final(self).queues().dom() =~= old(self).queues().dom(),
            forall|k: Seq<char>| #[trigger]
                final(self).waiting(k) == Seq::<Arc<IncomingMessage>>::empty(),
            forall|k: Seq<char>| #[trigger] final(self).last_wait(k) == old(self).last_wait(k),
            forall|k: Seq<char>, wanted: bool| #[trigger]
                final(self).serial(k, wanted) == old(self).serial(k, wanted),
            r@.len() == old(self).queues().dom().len(),
            forall|i: int|
                0 <= i < r@.len() ==> {
                    &&& old(self).queues().contains_key((#[trigger] r@[i]).0@)
                    &&& types::views(r@[i].1@) == handed_out(
                        old(self).waiting(r@[i].0@),
                        old(self).serial(r@[i].0@, true),
                    )
                },
            forall|i: int, j: int|
                0 <= i < j < r@.len() ==> (#[trigger] r@[i]).0@ != (#[trigger] r@[j]).0@,
    {
        let scopes = self.queues.keys();
        let mut out: Vec<(String, Vec<BatchedMessage>)> = Vec::new();
        let mut i: usize = 0;
        while i < scopes.len()
            invariant
                i <= scopes@.len(),
                out@.len() == i,
                self.wf(),
                self.same_rules(old(self)),
                self.queues().dom() =~= old(self).queues().dom(),
                forall|k: Seq<char>| #[trigger] self.last_wait(k) == old(self).last_wait(k),
                forall|k: Seq<char>, wanted: bool| #[trigger]
                    self.serial(k, wanted) == old(self).serial(k, wanted),
                forall|k: int|
                    0 <= k < scopes@.len() ==> old(self).queues().contains_key(
                        (#[trigger] scopes@[k])@,
                    ),
                forall|a: int, b: int|
                    0 <= a < b < scopes@.len() ==> (#[trigger] scopes@[a])@
                        != (#[trigger] scopes@[b])@,
                forall|k: int|
                    0 <= k < i ==> (#[trigger] scopes@[k])@ == out@[k].0@ && self.waiting(
                        scopes@[k]@,
                    ) == Seq::<Arc<IncomingMessage>>::empty(),
                forall|k: int|
                    i <= k < scopes@.len() ==> self.queues()[(#[trigger] scopes@[k])@]
                        == old(self).queues()[scopes@[k]@],
                forall|k: int|
                    0 <= k < i ==> types::views((#[trigger] out@[k]).1@) == handed_out(
                        old(self).waiting(out@[k].0@),
                        old(self).serial(out@[k].0@, true),
                    ),
            decreases scopes@.len() - i,
        {
            let scope = scopes[i].clone();
            let ghost before = *self;
            assert(self.queues().contains_key(scopes@[i as int]@));
            let batches = self.run_serial(scope.as_str());
            proof {
                assert forall|k: Seq<char>| #[trigger] self.last_wait(k) == old(
                    self,
                ).last_wait(k) by {
                    assert(before.last_wait(k) == old(self).last_wait(k));
                    if k != scope@ {
                        assert(self.queues().remove(scope@).contains_key(k)
                            == before.queues().remove(scope@).contains_key(k));
                        assert(self.queues().remove(scope@)[k] == before.queues().remove(
                            scope@,
                        )[k]);
                    }
                }
                assert forall|k: Seq<char>, wanted: bool| #[trigger]
                    self.serial(k, wanted) == old(self).serial(k, wanted) by {
                    assert(before.serial(k, wanted) == old(self).serial(k, wanted));
                    if k != scope@ {
                        assert(self.queues().remove(scope@).contains_key(k)
                            == before.queues().remove(scope@).contains_key(k));
                        assert(self.queues().remove(scope@)[k] == before.queues().remove(
                            scope@,
                        )[k]);
                    } else {
                        assert(before.queues().contains_key(k));
                        assert(self.serial(k, true) == before.serial(k, true));
                    }
                }
                assert forall|k: int| i < k < scopes@.len() implies self.queues()[(
                #[trigger] scopes@[k])@] == old(self).queues()[scopes@[k]@] by {
                    assert(scopes@[k]@ != scopes@[i as int]@);
                    assert(self.queues().remove(scope@)[scopes@[k]@]
                        == before.queues().remove(scope@)[scopes@[k]@]);
                }
                assert forall|k: int| 0 <= k < i implies self.waiting((#[trigger] scopes@[k])@)
                    == Seq::<Arc<IncomingMessage>>::empty() by {
                    assert(scopes@[k]@ != scopes@[i as int]@);
                    assert(before.waiting(scopes@[k]@) == Seq::<Arc<IncomingMessage>>::empty());
                    assert(before.queues().contains_key(scopes@[k]@));
                    assert(self.queues().remove(scope@)[scopes@[k]@]
                        == before.queues().remove(scope@)[scopes@[k]@]);
                }
                assert(self.queues().dom() =~= old(self).queues().dom()) by {
                    assert forall|k: Seq<char>|
                        self.queues().contains_key(k) == before.queues().contains_key(k) by {
                        if k != scope@ {
                            assert(self.queues().remove(scope@).contains_key(k)
                                == before.queues().remove(scope@).contains_key(k));
                        }
                    }
                }
            }
            out.push((scope, batches));
            i += 1;
        }
        proof {
            assert forall|k: Seq<char>| #[trigger] self.waiting(k) == Seq::<
                Arc<IncomingMessage>,
            >::empty() by {
                if self.queues().contains_key(k) {
                    assert(old(self).queues().contains_key(k));
                    let j = choose|j: int| 0 <= j < scopes@.len() && (#[trigger] scopes@[j])@ == k;
                    assert(scopes@[j]@ == k);
                }
            }
            assert forall|a: int, b: int| 0 <= a < b < out@.len() implies (#[trigger] out@[a]).0@
                != (#[trigger] out@[b]).0@ by {
                assert(scopes@[a]@ == out@[a].0@ && scopes@[b]@ == out@[b].0@);
            }
            assert forall|k: int| 0 <= k < out@.len() implies old(self).queues().contains_key(
                (#[trigger] out@[k]).0@,
            ) by {
                assert(scopes@[k]@ == out@[k].0@);
            }
        }
        out
    }
}

// ── laws ──

proof fn lemma_spoken_texts(batch: Seq<Arc<IncomingMessage>>)
    ensures
        spoken(batch).len() > 0 ==> text::join(spoken(batch), "\n\n"@).len() > 0,
        forall|i: int| 0 <= i < spoken(batch).len() ==> (#[trigger] spoken(batch)[i]).len() > 0,
    decreases batch.len(),
{
    if batch.len() > 0 {
        lemma_spoken_texts(batch.drop_last());
        let s = spoken(batch);
        if s.len() > 0 {
            assert(s.last().len() > 0) by {
                assert(s[s.len() - 1].len() > 0);
            }
        }
    }
}

/// One more message puts its text behind a blank line to the texts before it, where
/// it and they say something.
pub proof fn texts_are_put_together(batch: Seq<Arc<IncomingMessage>>, m: Arc<IncomingMessage>)
    requires
        batch.len() > 1,
    ensures
        ({
            let before = merged(batch).text;
            let after = merged(batch.push(m)).text;
            &&& m@.text.len() == 0 ==> after == before
            &&& m@.text.len() > 0 && before.len() == 0 ==> after == m@.text
            &&& m@.text.len() > 0 && before.len() > 0 ==> after == before + "\n\n"@ + m@.text
        }),
{
    let longer = batch.push(m);
    assert(longer.drop_last() =~= batch);
    lemma_spoken_texts(batch);
    let s = spoken(batch);
    let t = spoken(longer);
    if m@.text.len() > 0 {
        assert(t == s.push(m@.text));
        assert(t.drop_last() =~= s);
        if s.len() == 0 {
            assert(text::join(s, "\n\n"@).len() == 0);
        }
    }
}

/// Two messages become one that says both texts, with a blank line between them.
pub proof fn two_texts_are_put_together(a: Arc<IncomingMessage>, b: Arc<IncomingMessage>)
    requires
        a@.text.len() > 0,
        b@.text.len() > 0,
    ensures
        merged(seq![a, b]).text == a@.text + "\n\n"@ + b@.text,
{
    let two = seq![a, b];
    let one = seq![a];
    assert(two.drop_last() =~= one);
    assert(one.drop_last() =~= Seq::<Arc<IncomingMessage>>::empty());
    assert(one.last() == a);
    assert(spoken(one.drop_last()) =~= Seq::<Seq<char>>::empty());
    assert(spoken(one) =~= seq![a@.text]);
    assert(spoken(two) =~= seq![a@.text, b@.text]);
    assert(seq![a@.text, b@.text].drop_last() =~= seq![a@.text]);
    assert(text::join(seq![a@.text], "\n\n"@) == a@.text);
}

/// Several messages are put to the last of them: it gives the conversation, the
/// sender, the session and the time, and everybody is mentioned where one of them
/// does so. The messages themselves are kept. One alone is itself.
pub proof fn last_message_is_the_base(batch: Seq<Arc<IncomingMessage>>)
    requires
        batch.len() > 0,
    ensures
        ({
            let m = merged(batch);
            let last = batch.last()@;
            &&& m.conversation_id == last.conversation_id
            &&& m.conversation_type == last.conversation_type
            &&& m.sender_id == last.sender_id
            &&& m.sender_staff_id == last.sender_staff_id
            &&& m.session_webhook == last.session_webhook
            &&& m.webhook_expired_at == last.webhook_expired_at
            &&& m.msg_id == last.msg_id
            &&& m.msg_type == last.msg_type
            &&& m.create_at == last.create_at
            &&& m.mention_all == (exists|i: int|
                0 <= i < batch.len() && (#[trigger] batch[i])@.mention_all)
            &&& m.batched_sources == batch
            &&& batch.len() == 1 ==> m.text == last.text && m.resources == last.resources
                && m.mentions == last.mentions
        }),
{
    if batch.len() == 1 {
        assert(batch[0] == batch.last());
    }
}

/// Each message that is handed out alone, or all of them as one, is known by the
/// keys of the messages, in order.
pub proof fn messages_are_handed_out_with_their_keys(
    batch: Seq<Arc<IncomingMessage>>,
    i: int,
)
    requires
        0 <= i < batch.len(),
    ensures
        ({
            let one = handed_out(batch, false);
            let each = handed_out(batch, true);
            &&& one.len() == 1
            &&& one[0].source_ids.len() == batch.len()
            &&& one[0].source_ids[i] == batch[i]@.msg_id
            &&& one[0].message == merged(batch)
            &&& each.len() == batch.len()
            &&& each[i].source_ids == seq![batch[i]@.msg_id]
            &&& each[i].message.msg_id == batch[i]@.msg_id
            &&& each[i].message.text == batch[i]@.text
        }),
        handed_out(Seq::empty(), false).len() == 0,
        handed_out(Seq::empty(), true).len() == 0,
{
    assert(handed_out(batch, true)[i].source_ids =~= seq![batch[i]@.msg_id]);
}

/// One more message counts with its characters and, where it carries media, as one
/// that does.
pub proof fn message_is_counted(batch: Seq<Arc<IncomingMessage>>, m: Arc<IncomingMessage>)
    ensures
        total_chars(batch.push(m)) == total_chars(batch) + m@.text.len(),
        media_count(batch.push(m)) == media_count(batch) + (if m@.resources.len() > 0 {
            1nat
        } else {
            0nat
        }),
        total_chars(Seq::empty()) == 0,
        media_count(Seq::empty()) == 0,
{
    assert(batch.push(m).drop_last() =~= batch);
}

/// A batch is full exactly where it has as many messages, characters or, where
/// media are put together, messages with media as it may have.
pub proof fn batch_is_full_at_its_limits(
    batch: Seq<Arc<IncomingMessage>>,
    cfg: BatchConfig,
    media: MediaBatchConfig,
)
    ensures
        batch.len() >= cfg.max_messages ==> full(batch, cfg, media),
        total_chars(batch) >= cfg.max_chars ==> full(batch, cfg, media),
        media.enabled && media_count(batch) > 0 && media_count(batch) >= media.max_items ==> full(
            batch,
            cfg,
            media,
        ),
        batch.len() < cfg.max_messages && total_chars(batch) < cfg.max_chars && (!media.enabled
            || media_count(batch) < media.max_items) ==> !full(batch, cfg, media),
{
}

/// Behind a message with media the wait for media holds, where they are put
/// together; behind long texts the long one, and else the short one.
pub proof fn wait_goes_by_what_was_said(
    batch: Seq<Arc<IncomingMessage>>,
    cfg: BatchConfig,
    media: MediaBatchConfig,
)
    requires
        batch.len() > 0,
    ensures
        ({
            let pictured = media.enabled && batch.last()@.resources.len() > 0;
            let long = total_chars(batch) >= cfg.long_threshold_chars;
            &&& pictured ==> wait_ms(batch, cfg, media) == media.delay_ms
            &&& !pictured && long ==> wait_ms(batch, cfg, media) == cfg.long_delay_ms
            &&& !pictured && !long ==> wait_ms(batch, cfg, media) == cfg.delay_ms
        }),
{
}

proof fn lemma_all(batch: Seq<Arc<IncomingMessage>>, i: int)
    requires
        0 <= i < batch.len(),
    ensures
        forall|k: int|
            0 <= k < batch[i]@.resources.len() ==> all_resources(batch).contains(
                #[trigger] batch[i]@.resources[k],
            ),
        forall|k: int|
            0 <= k < batch[i]@.mentions.len() ==> all_mentions(batch).contains(
                #[trigger] batch[i]@.mentions[k],
            ),
    decreases batch.len(),
{
    let front = batch.drop_last();
    let rs = all_resources(batch);
    let ms = all_mentions(batch);
    if i < front.len() {
        lemma_all(front, i);
        assert(front[i] == batch[i]);
    }
    assert forall|k: int| 0 <= k < batch[i]@.resources.len() implies rs.contains(
        #[trigger] batch[i]@.resources[k],
    ) by {
        let x = batch[i]@.resources[k];
        let before = all_resources(front);
        if i < front.len() {
            assert(front[i]@.resources[k] == x);
            assert(before.contains(x));
            let n = choose|n: int| 0 <= n < before.len() && before[n] == x;
            assert(rs[n] == x);
        } else {
            assert(rs[before.len() + k] == x);
        }
    }
    assert forall|k: int| 0 <= k < batch[i]@.mentions.len() implies ms.contains(
        #[trigger] batch[i]@.mentions[k],
    ) by {
        let x = batch[i]@.mentions[k];
        let before = all_mentions(front);
        if i < front.len() {
            assert(front[i]@.mentions[k] == x);
            assert(before.contains(x));
            let n = choose|n: int| 0 <= n < before.len() && before[n] == x;
            assert(ms[n] == x);
        } else {
            assert(ms[before.len() + k] == x);
        }
    }
}

/// Every resource of every message is found in the merged one by its code, and every
/// mention by its user, or by its name where it has none.
pub proof fn merged_message_holds_what_each_holds(
    batch: Seq<Arc<IncomingMessage>>,
    i: int,
    k: int,
)
    requires
        0 <= i < batch.len(),
        k >= 0,
    ensures
        k < batch[i]@.resources.len() ==> exists|n: int|
            0 <= n < merged(batch).resources.len() && (#[trigger] merged(
                batch,
            ).resources[n]).download_code == batch[i]@.resources[k].download_code,
        k < batch[i]@.mentions.len() && batch[i]@.mentions[k].user_id.len() > 0 ==> exists|n: int|
            0 <= n < merged(batch).mentions.len() && mention_key(
                #[trigger] merged(batch).mentions[n],
            ) == batch[i]@.mentions[k].user_id,
        k < batch[i]@.mentions.len() && batch[i]@.mentions[k].user_id.len() == 0 ==> exists|n: int|
            0 <= n < merged(batch).mentions.len() && mention_key(
                #[trigger] merged(batch).mentions[n],
            ) == batch[i]@.mentions[k].name,
{
    lemma_all(batch, i);
    let m = merged(batch);
    let rs = all_resources(batch);
    let ms = all_mentions(batch);
    if k < batch[i]@.resources.len() {
        let x = batch[i]@.resources[k];
        if batch.len() == 1 {
            assert(m.resources[k] == x);
        } else {
            let n = choose|n: int| 0 <= n < rs.len() && rs[n] == x;
            merged_resources_are_complete(rs, n);
            let at = choose|at: int|
                0 <= at < m.resources.len() && (#[trigger] m.resources[at]).download_code
                    == x.download_code;
            assert(m.resources[at].download_code == x.download_code);
        }
    }
    if k < batch[i]@.mentions.len() {
        let x = batch[i]@.mentions[k];
        if batch.len() == 1 {
            assert(m.mentions[k] == x);
        } else {
            let n = choose|n: int| 0 <= n < ms.len() && ms[n] == x;
            merged_mentions_are_complete(ms, n);
            let at = choose|at: int|
                0 <= at < m.mentions.len() && mention_key(#[trigger] m.mentions[at])
                    == mention_key(x);
            assert(mention_key(m.mentions[at]) == mention_key(x));
        }
    }
}

/// A mention is known by its user, and by its name where it has none.
pub proof fn mention_is_known_by_its_user(m: MentionView)
    ensures
        m.user_id.len() > 0 ==> mention_key(m) == m.user_id,
        m.user_id.len() == 0 ==> mention_key(m) == m.name,
{
}

/// A wait has another number than the one before it.
pub proof fn waits_are_told_apart(n: u64)
    ensures
        wait_behind(n) != n,
        n < u64::MAX ==> wait_behind(n) == n + 1,
{
}

/// What waits in a conversation waits in its queue, and nothing waits where there is
/// none.
pub proof fn conversations_wait_in_their_queues(
    m: &ChatQueueManager,
    scope: Seq<char>,
    wanted: bool,
)
    ensures
        m.queues().contains_key(scope) ==> m.serial(scope, wanted) == m.queues()[scope].serial(),
        !m.queues().contains_key(scope) ==> m.serial(scope, wanted) == wanted,
        m.queues().contains_key(scope) ==> m.waiting(scope) == m.queues()[scope].waiting()
            && m.last_wait(scope) == m.queues()[scope].last_wait(),
        !m.queues().contains_key(scope) ==> m.waiting(scope).len() == 0 && m.last_wait(scope) == 0,
        wait_behind(u64::MAX) == 0,
{
}

} // verus!
