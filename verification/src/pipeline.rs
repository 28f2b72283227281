//! The way of an inbound message to its handler.
//!
//! A message passes the rules one behind the other: its age, whether it came in
//! before, whether the robot wrote it, the policy, and the lock that keeps it
//! from being handled twice at once. Then it is queued in its conversation.

use crate::safety::chat_queue;
use crate::safety::chat_queue::QueueStep;
use crate::safety::policy_gate;
use crate::safety::seen_cache;
use crate::safety::stale;
use crate::safety::{
    content_fingerprint, ChatQueueManager, PolicyGate, ProcessingLock, SeenCache, StaleDetector,
};
use crate::text;
use crate::time;
use crate::time::{wall_now, Clock, Duration};
use crate::types;
use crate::types::{
    BatchedMessage, BotIdentity, IncomingMessage, MessageView, PolicyConfig,
    PolicyView, RejectEvent, RejectEventView, RejectReason, SafetyConfig,
};
use std::sync::Arc;
use vstd::prelude::*;

verus! {

/// Everything that decides what becomes of a message.
pub struct PipelineView {
    /// How old a message may be.
    pub window: Duration,
    /// The keys that were marked, with the end of their time.
    pub marks: Seq<(Seq<char>, u128)>,
    /// How many keys are remembered.
    pub room: nat,
    /// For how long a key is remembered.
    pub mark_ttl: Duration,
    /// The locks that were taken, with the end of their time.
    pub locks: Map<Seq<char>, Duration>,
    /// For how long a lock is held.
    pub lock_ttl: Duration,
    pub policy: PolicyView,
    /// The name of the robot, empty while it is not known.
    pub robot: Seq<char>,
    /// Drop what the robot wrote.
    pub drop_self_sent: bool,
    /// Mark a message when it was handled, not when it comes in.
    pub mark_after_handler: bool,
}

/// The keys by which a message is known again: its delivery, its own key and,
/// where it says something at a known time, its fingerprint.
pub open spec fn keys_of(proto_id: Seq<char>, m: MessageView) -> Seq<Seq<char>> {
    let own = seq![proto_id, m.msg_id];
    if m.text.len() > 0 && m.create_at > 0 {
        own.push(
            seen_cache::fingerprint(m.conversation_id, m.create_at as int, m.msg_type, m.text),
        )
    } else {
        own
    }
}

/// The reason for which a message is not handled, or that it is: the first rule
/// that it does not pass decides.
pub open spec fn judged(
    st: PipelineView,
    keys: Seq<Seq<char>>,
    m: MessageView,
    now: Duration,
    wall: Duration,
) -> RejectReason {
    if stale::too_old(st.window, m.create_at as int, wall) {
        RejectReason::Stale
    } else if seen_cache::any_fresh(st.marks, keys, now.nanos) {
        RejectReason::Duplicate
    } else if st.drop_self_sent && st.robot.len() > 0 && m.sender_id == st.robot {
        RejectReason::SelfSent
    } else if policy_gate::verdict(st.policy, m) != RejectReason::Admitted {
        policy_gate::verdict(st.policy, m)
    } else if stale::held(st.locks, m.msg_id, now) {
        RejectReason::LockContention
    } else {
        RejectReason::Admitted
    }
}

/// The marks once the keys of a message were looked for: marked at once, or
/// only when the message was handled.
pub open spec fn marks_after_look(
    st: PipelineView,
    keys: Seq<Seq<char>>,
    now: Duration,
) -> Seq<(Seq<char>, u128)> {
    if st.mark_after_handler {
        seen_cache::after_has(st.marks, keys, now.nanos)
    } else {
        seen_cache::after_check(
            st.marks,
            keys,
            now.nanos,
            time::sum(now, st.mark_ttl) as u128,
            st.room,
        )
    }
}

/// The state once a message came in. A message that is too old leaves no trace;
/// only one that is admitted takes its lock.
pub open spec fn after_message(
    st: PipelineView,
    keys: Seq<Seq<char>>,
    m: MessageView,
    now: Duration,
    wall: Duration,
) -> PipelineView {
    PipelineView {
        marks: if judged(st, keys, m, now, wall) == RejectReason::Stale {
            st.marks
        } else {
            marks_after_look(st, keys, now)
        },
        locks: if judged(st, keys, m, now, wall) == RejectReason::Admitted {
            st.locks.insert(m.msg_id, Duration { nanos: time::sum(now, st.lock_ttl) as u128 })
        } else {
            st.locks
        },
        ..st
    }
}

/// The locks once those with the names were given back.
pub open spec fn released(locks: Map<Seq<char>, Duration>, ids: Seq<Seq<char>>) -> Map<
    Seq<char>,
    Duration,
>
    decreases ids.len(),
{
    if ids.len() == 0 {
        locks
    } else {
        released(locks, ids.drop_last()).remove(ids.last())
    }
}

/// The state once the messages with the keys were handled: their locks are
/// free, and where they were handled without an error and not marked before,
/// they are marked.
pub open spec fn after_handling(
    st: PipelineView,
    ids: Seq<Seq<char>>,
    ok: bool,
    now: Duration,
) -> PipelineView {
    PipelineView {
        locks: released(st.locks, ids),
        marks: if st.mark_after_handler && ok {
            seen_cache::after_add(st.marks, ids, time::sum(now, st.mark_ttl) as u128, st.room)
        } else {
            st.marks
        },
        ..st
    }
}

/// Whether an action on a card is run.
pub open spec fn action_admitted(st: PipelineView, keys: Seq<Seq<char>>, now: Duration) -> bool {
    !seen_cache::any_fresh(st.marks, keys, now.nanos) && !stale::held(st.locks, keys[0], now)
}

/// The state once an action on a card came in. Its first key is its own.
pub open spec fn after_action(
    st: PipelineView,
    keys: Seq<Seq<char>>,
    now: Duration,
) -> PipelineView {
    PipelineView {
        marks: marks_after_look(st, keys, now),
        locks: if action_admitted(st, keys, now) {
            st.locks.insert(keys[0], Duration { nanos: time::sum(now, st.lock_ttl) as u128 })
        } else {
            st.locks
        },
        ..st
    }
}

/// What becomes of a message.
#[derive(Debug)]
pub enum Admission {
    /// It is not handled.
    Rejected(RejectEvent),
    /// It is handled at once.
    Direct,
    /// It is handled behind those that wait in its conversation.
    Serial(Vec<BatchedMessage>),
    /// It is put to others of its conversation.
    Batched(QueueStep),
}

/// What becomes of an action on a card.
#[derive(Debug)]
pub enum ActionAdmission {
    /// It is not run.
    Dropped,
    /// It is run at once.
    Direct,
    /// It is run behind what waits on its card.
    Serial(Vec<BatchedMessage>),
}

/// What becomes of a message with a verdict, and of the queues with it. A message
/// that is not admitted is named with its reason. One that is admitted is handled
/// at once where nothing is queued; else it is put to others of its conversation,
/// or what waits there is handed out before it.
pub open spec fn taken_in(
    queue: ChatQueueManager,
    after: ChatQueueManager,
    reason: RejectReason,
    msg: Arc<IncomingMessage>,
    has_on_batch: bool,
    r: Admission,
) -> bool {
    let scope = msg@.conversation_id;
    if reason != RejectReason::Admitted {
        &&& r matches Admission::Rejected(e) && e@ == (RejectEventView {
            message_id: msg@.msg_id,
            chat_id: scope,
            sender_id: msg@.sender_id,
            reason,
        })
        &&& after == queue
    } else if !queue.is_enabled() {
        &&& r is Direct
        &&& after == queue
    } else if has_on_batch {
        let all = queue.waiting(scope).push(msg);
        let serial = queue.serial(scope, false);
        &&& r is Batched
        &&& after.queues().remove(scope) =~= queue.queues().remove(scope)
        &&& after.serial(scope, false) == serial
        &&& if chat_queue::full(all, queue.batching(), queue.media())
            || queue.batching().delay_ms == 0 || serial {
            &&& r->Batched_0 matches QueueStep::Dispatch(out) && types::views(out@)
                == chat_queue::handed_out(all, serial)
            &&& after.waiting(scope) == Seq::<Arc<IncomingMessage>>::empty()
            &&& after.last_wait(scope) == queue.last_wait(scope)
        } else {
            &&& r->Batched_0 == (QueueStep::Wait {
                delay_ms: chat_queue::wait_ms(all, queue.batching(), queue.media()),
                generation: after.last_wait(scope),
            })
            &&& after.waiting(scope) == all
            &&& after.last_wait(scope) == chat_queue::wait_behind(queue.last_wait(scope))
        }
    } else {
        &&& r matches Admission::Serial(before) && types::views(before@)
            == chat_queue::handed_out(queue.waiting(scope), queue.serial(scope, true))
        &&& after.queues().remove(scope) =~= queue.queues().remove(scope)
        &&& after.serial(scope, true) == queue.serial(scope, true)
        &&& after.waiting(scope) == Seq::<Arc<IncomingMessage>>::empty()
        &&& after.last_wait(scope) == queue.last_wait(scope)
    }
}

/// The rules and what they remember.
pub struct SafetyPipeline {
    drop_self_sent: bool,
    mark_after_handler: bool,
    stale: StaleDetector,
    seen: SeenCache,
    lock: ProcessingLock,
    policy: PolicyGate,
    chat_queue: ChatQueueManager,
    bot_robot_code: String,
    clock: Clock,
}

/// References to texts, in their order.
pub fn refs(v: &Vec<String>) -> (r: Vec<&str>)
    ensures
        seen_cache::names(r@) == text::texts(v@),
{
    let mut out: Vec<&str> = Vec::new();
    let mut i: usize = 0;
    while i < v.len()
        invariant
            i <= v@.len(),
            out@.len() == i,
            forall|k: int| 0 <= k < i ==> (#[trigger] out@[k])@ == v@[k]@,
        decreases v@.len() - i,
    {
        out.push(v[i].as_str());
        i += 1;
    }
    assert(seen_cache::names(out@) =~= text::texts(v@));
    out
}

impl SafetyPipeline {
    /// Everything that decides what becomes of a message.
    pub closed spec fn state(&self) -> PipelineView {
        PipelineView {
            window: self.stale.window(),
            marks: self.seen.marks(),
            room: self.seen.room(),
            mark_ttl: self.seen.ttl(),
            locks: self.lock.locks(),
            lock_ttl: self.lock.ttl(),
            policy: self.policy.policy(),
            robot: self.bot_robot_code@,
            drop_self_sent: self.drop_self_sent,
            mark_after_handler: self.mark_after_handler,
        }
    }

    /// The queues of the conversations.
    pub closed spec fn queue(&self) -> ChatQueueManager {
        self.chat_queue
    }

    pub closed spec fn wf(&self) -> bool {
        &&& self.seen.wf()
        &&& self.lock.wf()
        &&& self.chat_queue.wf()
    }

    /// There is room for a mark, and never more marks than there is room for.
    pub proof fn marks_have_room(&self)
        requires
            self.wf(),
        ensures
            self.state().room > 0,
            self.state().marks.len() <= self.state().room,
    {
        self.seen.keys_have_room();
    }

    pub fn new(cfg: &SafetyConfig, bot_robot_code: &str) -> (r: SafetyPipeline)
        requires
            cfg.dedup.max_entries <= usize::MAX / 256,
        ensures
            r.wf(),
            r.state() == (PipelineView {
                window: stale::window_or_default(cfg.stale_window),
                marks: Seq::empty(),
                room: if cfg.dedup.max_entries == 0 {
                    1
                } else {
                    cfg.dedup.max_entries as nat
                },
                mark_ttl: cfg.dedup.ttl,
                locks: Map::empty(),
                lock_ttl: if cfg.lock_ttl.nanos == 0 {
                    Duration { nanos: 300_000_000_000 }
                } else {
                    cfg.lock_ttl
                },
                policy: cfg.policy@,
                robot: bot_robot_code@,
                drop_self_sent: cfg.drop_self_sent,
                mark_after_handler: cfg.mark_after_handler,
            }),
            r.queue().is_enabled() == cfg.chat_queue.enabled,
            r.queue().batching() == cfg.text_batch,
            r.queue().media() == cfg.media_batch,
            r.queue().queues() == Map::<Seq<char>, chat_queue::ChatQueue>::empty(),
    {
        let lock_ttl = if cfg.lock_ttl.is_zero() {
            Duration::from_secs(5 * 60)
        } else {
            cfg.lock_ttl
        };
        SafetyPipeline {
            drop_self_sent: cfg.drop_self_sent,
            mark_after_handler: cfg.mark_after_handler,
            stale: StaleDetector::new(cfg.stale_window),
            seen: SeenCache::new(cfg.dedup),
            lock: ProcessingLock::new(lock_ttl),
            policy: PolicyGate::new(cfg.policy.clone()),
            chat_queue: ChatQueueManager::new(
                cfg.text_batch,
                cfg.chat_queue.enabled,
                cfg.media_batch,
            ),
            bot_robot_code: text::owned(bot_robot_code),
            clock: Clock::start(),
        }
    }

    /// The time of the clock that marks and locks go by.
    pub fn now(&self) -> (r: Duration)
        ensures
            r.nanos <= time::LONGEST_NANOS,
    {
        self.clock.now()
    }

    /// Looks for keys and, where messages are marked when they come in, marks
    /// them.
    fn look(&mut self, keys: &Vec<String>, now: Duration) -> (r: bool)
        requires
            old(self).wf(),
        ensures
            final(self).wf(),
            r == seen_cache::any_fresh(old(self).state().marks, text::texts(keys@), now.nanos),
            final(self).state() == (PipelineView {
                marks: marks_after_look(old(self).state(), text::texts(keys@), now),
                ..old(self).state()
            }),
            final(self).queue() == old(self).queue(),
    {
        let key_refs = refs(keys);
        if self.mark_after_handler {
            self.seen.has_at(key_refs.as_slice(), now)
        } else {
            self.seen.check_and_mark_at(key_refs.as_slice(), now)
        }
    }

    /// Judges a message that came in with a delivery, at the given times of the
    /// clocks.
    fn judge(&mut self, proto_id: &str, msg: &IncomingMessage, now: Duration, wall: Duration) -> (r:
        RejectReason)
        requires
            old(self).wf(),
        ensures
            final(self).wf(),
            r == judged(old(self).state(), keys_of(proto_id@, msg@), msg@, now, wall),
            final(self).state() == after_message(
                old(self).state(),
                keys_of(proto_id@, msg@),
                msg@,
                now,
                wall,
            ),
            final(self).queue() == old(self).queue(),
    {
        if self.stale.is_stale_at(msg.create_at, wall) {
            return RejectReason::Stale;
        }
        let mut keys: Vec<String> = Vec::new();
        keys.push(text::owned(proto_id));
        keys.push(msg.msg_id.clone());
        if !msg.text.as_str().is_empty() && msg.create_at > 0 {
            keys.push(
                content_fingerprint(
                    msg.conversation_id.as_str(),
                    msg.create_at,
                    msg.msg_type.as_str(),
                    msg.text.as_str(),
                ),
            );
        }
        assert(text::texts(keys@) =~= keys_of(proto_id@, msg@));
        if self.look(&keys, now) {
            return RejectReason::Duplicate;
        }
        if self.drop_self_sent && !self.bot_robot_code.as_str().is_empty() && text::same(
            msg.sender_id.as_str(),
            self.bot_robot_code.as_str(),
        ) {
            return RejectReason::SelfSent;
        }
        let decision = self.policy.evaluate(msg);
        if !decision.allowed {
            return decision.reason;
        }
        if !self.lock.acquire_at(msg.msg_id.as_str(), now) {
            return RejectReason::LockContention;
        }
        RejectReason::Admitted
    }

    /// Takes a message in at the given times of the clocks.
    pub fn push_message_at(
        &mut self,
        proto_id: &str,
        msg: &Arc<IncomingMessage>,
        has_on_batch: bool,
        now: Duration,
        wall: Duration,
    ) -> (r: Admission)
        requires
            old(self).wf(),
        ensures
            final(self).wf(),
            final(self).state() == after_message(
                old(self).state(),
                keys_of(proto_id@, msg@),
                msg@,
                now,
                wall,
            ),
            final(self).queue().same_rules(&old(self).queue()),
            taken_in(
                old(self).queue(),
                final(self).queue(),
                judged(old(self).state(), keys_of(proto_id@, msg@), msg@, now, wall),
                *msg,
                has_on_batch,
                r,
            ),
    {
        let reason = self.judge(proto_id, &**msg, now, wall);
        let admitted = match reason {
            RejectReason::Admitted => true,
            _ => false,
        };
        if !admitted {
            return Admission::Rejected(
                RejectEvent {
                    message_id: msg.msg_id.clone(),
                    chat_id: msg.conversation_id.clone(),
                    sender_id: msg.sender_id.clone(),
                    reason,
                },
            );
        }
        if !self.chat_queue.enabled() {
            return Admission::Direct;
        }
        if has_on_batch {
            let shared = types::share(msg);
            let step = self.chat_queue.push(msg.conversation_id.as_str(), shared);
            return Admission::Batched(step);
        }
        Admission::Serial(self.chat_queue.run_serial(msg.conversation_id.as_str()))
    }

    /// Takes a message in. What the clocks say decides with the rest.
    pub fn push_message(
        &mut self,
        proto_id: &str,
        msg: &Arc<IncomingMessage>,
        has_on_batch: bool,
    ) -> (r: Admission)
        requires
            old(self).wf(),
        ensures
            final(self).wf(),
            final(self).queue().same_rules(&old(self).queue()),
            exists|now: Duration, wall: Duration|
                {
                    &&& final(self).state() == #[trigger] after_message(
                        old(self).state(),
                        keys_of(proto_id@, msg@),
                        msg@,
                        now,
                        wall,
                    )
                    &&& taken_in(
                        old(self).queue(),
                        final(self).queue(),
                        judged(old(self).state(), keys_of(proto_id@, msg@), msg@, now, wall),
                        *msg,
                        has_on_batch,
                        r,
                    )
                },
    {
        let now = self.clock.now();
        let wall = wall_now();
        self.push_message_at(proto_id, msg, has_on_batch, now, wall)
    }

    /// Notes at the given time that messages were handled.
    pub fn complete_at(&mut self, ids: &Vec<String>, ok: bool, now: Duration)
        requires
            old(self).wf(),
        ensures
            final(self).wf(),
            final(self).state() == after_handling(
                old(self).state(),
                text::texts(ids@),
                ok,
                now,
            ),
            final(self).queue() == old(self).queue(),
    {
        let ghost all = text::texts(ids@);
        let mut i: usize = 0;
        assert(all.take(0) =~= Seq::empty());
        while i < ids.len()
            invariant
                i <= ids@.len(),
                all == text::texts(ids@),
                self.wf(),
                self.queue() == old(self).queue(),
                self.state() == (PipelineView {
                    locks: released(old(self).state().locks, all.take(i as int)),
                    ..old(self).state()
                }),
            decreases ids@.len() - i,
        {
            self.lock.release(ids[i].as_str());
            proof {
                assert(all.take(i + 1).drop_last() =~= all.take(i as int));
                assert(all.take(i + 1).last() == ids@[i as int]@);
            }
            i += 1;
        }
        assert(all.take(i as int) =~= all);
        if self.mark_after_handler && ok {
            let id_refs = refs(ids);
            self.seen.add_at(id_refs.as_slice(), now);
        }
    }

    /// Notes that messages were handled.
    pub fn complete(&mut self, ids: &Vec<String>, ok: bool)
        requires
            old(self).wf(),
        ensures
            final(self).wf(),
            exists|now: Duration|
                final(self).state() == #[trigger] after_handling(
                    old(self).state(),
                    text::texts(ids@),
                    ok,
                    now,
                ),
            final(self).queue() == old(self).queue(),
    {
        let now = self.clock.now();
        self.complete_at(ids, ok, now);
    }

    /// Takes an action on a card in at the given time. The action is known
    /// again by its event and by the other keys.
    pub fn push_action_at(
        &mut self,
        event_id: &str,
        scope: &str,
        extra_dedup_keys: &Vec<String>,
        now: Duration,
    ) -> (r: ActionAdmission)
        requires
            old(self).wf(),
        ensures
            final(self).wf(),
            final(self).queue().same_rules(&old(self).queue()),
            ({
                let keys = seq![event_id@] + text::texts(extra_dedup_keys@);
                let queue = old(self).queue();
                &&& final(self).state() == after_action(old(self).state(), keys, now)
                &&& if !action_admitted(old(self).state(), keys, now) {
                    &&& r is Dropped
                    &&& final(self).queue() == queue
                } else if !queue.is_enabled() {
                    &&& r is Direct
                    &&& final(self).queue() == queue
                } else {
                    &&& r matches ActionAdmission::Serial(before) && types::views(before@)
                        == chat_queue::handed_out(
                        queue.waiting(scope@),
                        queue.serial(scope@, true),
                    )
                    &&& final(self).queue().queues().remove(scope@) =~= queue.queues().remove(
                        scope@,
                    )
                    &&& final(self).queue().serial(scope@, true) == queue.serial(scope@, true)
                    &&& final(self).queue().waiting(scope@) == Seq::<Arc<IncomingMessage>>::empty()
                    &&& final(self).queue().last_wait(scope@) == queue.last_wait(scope@)
                }
            }),
    {
        let mut keys: Vec<String> = Vec::new();
        keys.push(text::owned(event_id));
        let mut i: usize = 0;
        assert(text::texts(keys@) =~= seq![event_id@] + text::texts(extra_dedup_keys@).take(0));
        while i < extra_dedup_keys.len()
            invariant
                i <= extra_dedup_keys@.len(),
                text::texts(keys@) == seq![event_id@] + text::texts(extra_dedup_keys@).take(
                    i as int,
                ),
            decreases extra_dedup_keys@.len() - i,
        {
            let key = extra_dedup_keys[i].clone();
            let ghost before = keys@;
            keys.push(key);
            proof {
                assert(text::texts(keys@) =~= text::texts(before).push(key@));
                assert(text::texts(keys@) =~= seq![event_id@] + text::texts(
                    extra_dedup_keys@,
                ).take(i + 1));
            }
            i += 1;
        }
        let ghost all = seq![event_id@] + text::texts(extra_dedup_keys@);
        proof {
            assert(text::texts(extra_dedup_keys@).take(i as int) =~= text::texts(
                extra_dedup_keys@,
            ));
            assert(all[0] == event_id@);
        }
        if self.look(&keys, now) {
            return ActionAdmission::Dropped;
        }
        if !self.lock.acquire_at(event_id, now) {
            return ActionAdmission::Dropped;
        }
        if !self.chat_queue.enabled() {
            return ActionAdmission::Direct;
        }
        ActionAdmission::Serial(self.chat_queue.run_serial(scope))
    }

    /// Takes a small event in at the given time: it is handled unless it came
    /// in before.
    pub fn push_light_at(&mut self, event_id: &str, now: Duration) -> (r: bool)
        requires
            old(self).wf(),
        ensures
            final(self).wf(),
            r == !seen_cache::any_fresh(old(self).state().marks, seq![event_id@], now.nanos),
            final(self).state() == (PipelineView {
                marks: marks_after_look(old(self).state(), seq![event_id@], now),
                ..old(self).state()
            }),
            final(self).queue() == old(self).queue(),
    {
        let mut keys: Vec<String> = Vec::new();
        keys.push(text::owned(event_id));
        assert(text::texts(keys@) =~= seq![event_id@]);
        !self.look(&keys, now)
    }

    /// Notes at the given time that a small event was handled.
    pub fn complete_light_at(&mut self, event_id: &str, ok: bool, now: Duration)
        requires
            old(self).wf(),
        ensures
            final(self).wf(),
            final(self).state() == (PipelineView {
                locks: old(self).state().locks,
                ..after_handling(old(self).state(), seq![event_id@], ok, now)
            }),
            final(self).queue() == old(self).queue(),
    {
        if self.mark_after_handler && ok {
            let mut keys: Vec<String> = Vec::new();
            keys.push(text::owned(event_id));
            assert(text::texts(keys@) =~= seq![event_id@]);
            let key_refs = refs(&keys);
            self.seen.add_at(key_refs.as_slice(), now);
        }
    }

    /// Hands out what waits in a conversation, if the wait with the number is
    /// its last one.
    pub fn wait_over(&mut self, scope: &str, generation: u64) -> (r: Vec<BatchedMessage>)
        requires
            old(self).wf(),
        ensures
            final(self).wf(),
            final(self).state() == old(self).state(),
            final(self).queue().same_rules(&old(self).queue()),
            final(self).queue().queues().remove(scope@) =~= old(self).queue().queues().remove(
                scope@,
            ),
            final(self).queue().queues().contains_key(scope@) == old(
                self,
            ).queue().queues().contains_key(scope@),
            final(self).queue().serial(scope@, false) == old(self).queue().serial(scope@, false),
            final(self).queue().last_wait(scope@) == old(self).queue().last_wait(scope@),
            ({
                let queue = old(self).queue();
                let due = queue.queues().contains_key(scope@)
                    && queue.queues()[scope@].last_wait() == generation;
                &&& due ==> types::views(r@) == chat_queue::handed_out(
                    queue.waiting(scope@),
                    queue.serial(scope@, false),
                ) && final(self).queue().waiting(scope@) == Seq::<Arc<IncomingMessage>>::empty()
                &&& !due ==> r@.len() == 0 && final(self).queue().waiting(scope@)
                    == queue.waiting(scope@)
            }),
    {
        self.chat_queue.wait_over(scope, generation)
    }

    /// Tells who the robot is, so that what it writes itself can be dropped.
    pub fn set_bot_identity(&mut self, robot_code: &str)
        requires
            old(self).wf(),
        ensures
            final(self).wf(),
            final(self).state() == (PipelineView { robot: robot_code@, ..old(self).state() }),
            final(self).queue() == old(self).queue(),
    {
        self.policy.set_bot_identity(
            BotIdentity {
                robot_code: text::owned(robot_code),
                robot_name: String::new(),
                avatar: String::new(),
            },
        );
        self.bot_robot_code = text::owned(robot_code);
    }

    /// Puts another policy in use.
    pub fn update_policy(&mut self, cfg: PolicyConfig)
        requires
            old(self).wf(),
        ensures
            final(self).wf(),
            final(self).state() == (PipelineView { policy: cfg@, ..old(self).state() }),
            final(self).queue() == old(self).queue(),
    {
        self.policy.update_config(cfg);
    }

    /// A copy of the policy in use.
    pub fn get_policy(&self) -> (r: PolicyConfig)
        ensures
            r@ == self.state().policy,
    {
        self.policy.get_config()
    }

    /// Hands out what waits in every conversation and forgets every message.
    pub fn dispose(&mut self) -> (r: Vec<(String, Vec<BatchedMessage>)>)
        requires
            old(self).wf(),
        ensures
            final(self).wf(),
            final(self).state() == (PipelineView { marks: Seq::empty(), ..old(self).state() }),
            final(self).queue().same_rules(&old(self).queue()),
            final(self).queue().queues().dom() =~= old(self).queue().queues().dom(),
            forall|k: Seq<char>| #[trigger]
                final(self).queue().last_wait(k) == old(self).queue().last_wait(k),
            forall|k: Seq<char>, wanted: bool| #[trigger]
                final(self).queue().serial(k, wanted) == old(self).queue().serial(k, wanted),
            forall|k: Seq<char>| #[trigger]
                final(self).queue().waiting(k) == Seq::<Arc<IncomingMessage>>::empty(),
            r@.len() == old(self).queue().queues().dom().len(),
            forall|i: int|
                0 <= i < r@.len() ==> {
                    &&& old(self).queue().queues().contains_key((#[trigger] r@[i]).0@)
                    &&& types::views(r@[i].1@) == chat_queue::handed_out(
                        old(self).queue().waiting(r@[i].0@),
                        old(self).queue().serial(r@[i].0@, true),
                    )
                },
            forall|i: int, j: int|
                0 <= i < j < r@.len() ==> (#[trigger] r@[i]).0@ != (#[trigger] r@[j]).0@,
    {
        let r = self.chat_queue.flush_all();
        self.seen.clear();
        r
    }
}

// ── laws ──

/// A message that is not admitted takes no lock and changes nothing but the
/// marks.
pub proof fn rejection_takes_no_lock(
    st: PipelineView,
    keys: Seq<Seq<char>>,
    m: MessageView,
    now: Duration,
    wall: Duration,
)
    requires
        judged(st, keys, m, now, wall) != RejectReason::Admitted,
    ensures
        after_message(st, keys, m, now, wall) == (PipelineView {
            marks: after_message(st, keys, m, now, wall).marks,
            ..st
        }),
{
}

/// While a message is handled, the same message is not handled once more.
pub proof fn message_is_handled_once_at_a_time(
    st: PipelineView,
    keys: Seq<Seq<char>>,
    m: MessageView,
    now: Duration,
    wall: Duration,
    keys_then: Seq<Seq<char>>,
    then: Duration,
    wall_then: Duration,
)
    requires
        judged(st, keys, m, now, wall) == RejectReason::Admitted,
        then.nanos < time::sum(now, st.lock_ttl),
    ensures
        judged(after_message(st, keys, m, now, wall), keys_then, m, then, wall_then)
            != RejectReason::Admitted,
{
}

/// Where messages are marked when they come in, a message that was neither too
/// old nor a duplicate is a duplicate when it is delivered again with any one of
/// its keys, until its time is over: whether it was handled does not matter.
pub proof fn delivered_again_is_a_duplicate(
    st: PipelineView,
    keys: Seq<Seq<char>>,
    m: MessageView,
    now: Duration,
    wall: Duration,
    again: Seq<Seq<char>>,
    m2: MessageView,
    then: Duration,
    wall_then: Duration,
    i: int,
    j: int,
)
    requires
        !st.mark_after_handler,
        st.marks.len() <= st.room,
        keys.len() <= st.room,
        judged(st, keys, m, now, wall) != RejectReason::Stale,
        judged(st, keys, m, now, wall) != RejectReason::Duplicate,
        0 <= i < keys.len(),
        keys[i].len() > 0,
        0 <= j < again.len(),
        again[j] == keys[i],
        then.nanos < time::sum(now, st.mark_ttl),
        !stale::too_old(st.window, m2.create_at as int, wall_then),
    ensures
        judged(after_message(st, keys, m, now, wall), again, m2, then, wall_then)
            == RejectReason::Duplicate,
{
    let end = time::sum(now, st.mark_ttl) as u128;
    seen_cache::second_delivery_is_a_duplicate(
        st.marks,
        keys,
        now.nanos,
        end,
        st.room,
        again,
        then.nanos,
        i,
        j,
    );
}

/// Where messages are marked when they were handled, a message whose handling
/// failed is admitted when it is delivered again: with its own keys or with
/// others whose marks are not fresh, and whenever it is not too old and the
/// policy of that time allows it.
pub proof fn failed_message_can_come_again(
    st: PipelineView,
    keys: Seq<Seq<char>>,
    m: MessageView,
    now: Duration,
    wall: Duration,
    then: Duration,
    policy: PolicyView,
    again: Seq<Seq<char>>,
    later: Duration,
    wall_later: Duration,
)
    requires
        st.mark_after_handler,
        judged(st, keys, m, now, wall) == RejectReason::Admitted,
        policy_gate::verdict(policy, m) == RejectReason::Admitted,
        forall|i: int|
            0 <= i < again.len() ==> keys.contains(#[trigger] again[i]) || !seen_cache::fresh(
                st.marks,
                again[i],
                later.nanos,
            ),
        later.nanos >= now.nanos,
        !stale::too_old(st.window, m.create_at as int, wall_later),
    ensures
        judged(
            PipelineView {
                policy,
                ..after_handling(
                    after_message(st, keys, m, now, wall),
                    seq![m.msg_id],
                    false,
                    then,
                )
            },
            again,
            m,
            later,
            wall_later,
        ) == RejectReason::Admitted,
{
    let mid = after_message(st, keys, m, now, wall);
    let back = after_handling(mid, seq![m.msg_id], false, then);
    assert forall|i: int| 0 <= i < again.len() implies !#[trigger] seen_cache::fresh(
        back.marks,
        again[i],
        later.nanos,
    ) by {
        let key = again[i];
        seen_cache::looking_changes_nothing_fresh(st.marks, keys, now.nanos, key, later.nanos);
        if keys.contains(key) {
            let j = choose|j: int| 0 <= j < keys.len() && keys[j] == key;
            assert(!seen_cache::fresh(st.marks, keys[j], now.nanos));
        }
    }
    assert(seq![m.msg_id].drop_last() =~= Seq::empty());
    assert(released(mid.locks, seq![m.msg_id].drop_last()) == mid.locks);
}

/// Where messages are marked when they were handled, one that was handled
/// without an error is a duplicate when it is delivered again, until its time
/// is over.
pub proof fn handled_message_is_a_duplicate(
    st: PipelineView,
    m: MessageView,
    then: Duration,
    again: Seq<Seq<char>>,
    later: Duration,
    wall: Duration,
    j: int,
)
    requires
        st.mark_after_handler,
        st.marks.len() <= st.room,
        st.room > 0,
        m.msg_id.len() > 0,
        0 <= j < again.len(),
        again[j] == m.msg_id,
        later.nanos < time::sum(then, st.mark_ttl),
        !stale::too_old(st.window, m.create_at as int, wall),
    ensures
        judged(after_handling(st, seq![m.msg_id], true, then), again, m, later, wall)
            == RejectReason::Duplicate,
{
    let end = time::sum(then, st.mark_ttl) as u128;
    seen_cache::marked_keys_are_fresh(st.marks, seq![m.msg_id], end, st.room, 0, later.nanos);
    let back = after_handling(st, seq![m.msg_id], true, then);
    assert(seen_cache::fresh(back.marks, again[j], later.nanos));
}

/// Once the robot is known, what it wrote is never handled: for that very reason,
/// unless it is too old or a duplicate.
pub proof fn own_messages_are_dropped(
    st: PipelineView,
    keys: Seq<Seq<char>>,
    m: MessageView,
    now: Duration,
    wall: Duration,
)
    requires
        st.drop_self_sent,
        m.sender_id.len() > 0,
    ensures
        ({
            let known = PipelineView { robot: m.sender_id, ..st };
            judged(known, keys, m, now, wall) == (if stale::too_old(
                st.window,
                m.create_at as int,
                wall,
            ) {
                RejectReason::Stale
            } else if seen_cache::any_fresh(st.marks, keys, now.nanos) {
                RejectReason::Duplicate
            } else {
                RejectReason::SelfSent
            })
        }),
{
}

/// A message that is too old is told apart before anything is remembered of
/// it.
pub proof fn stale_message_leaves_no_trace(
    st: PipelineView,
    keys: Seq<Seq<char>>,
    m: MessageView,
    now: Duration,
    wall: Duration,
)
    requires
        stale::too_old(st.window, m.create_at as int, wall),
    ensures
        judged(st, keys, m, now, wall) == RejectReason::Stale,
        after_message(st, keys, m, now, wall) == st,
{
}

/// Giving locks back frees each of them and no other.
pub proof fn releasing_frees_exactly(
    locks: Map<Seq<char>, Duration>,
    ids: Seq<Seq<char>>,
    id: Seq<char>,
    now: Duration,
)
    ensures
        ids.contains(id) ==> !stale::held(released(locks, ids), id, now),
        !ids.contains(id) ==> stale::held(released(locks, ids), id, now) == stale::held(
            locks,
            id,
            now,
        ),
    decreases ids.len(),
{
    if ids.len() > 0 {
        releasing_frees_exactly(locks, ids.drop_last(), id, now);
        let before = ids.drop_last();
        if ids.contains(id) && ids.last() != id {
            let k = choose|k: int| 0 <= k < ids.len() && ids[k] == id;
            assert(before[k] == id);
        }
        if before.contains(id) {
            let k = choose|k: int| 0 <= k < before.len() && before[k] == id;
            assert(ids[k] == id);
        }
        if ids.last() == id {
            assert(ids[ids.len() - 1] == id);
        }
    }
}

/// A message that is young, new, from another and free is judged by the policy
/// alone, and admitted where that admits it.
pub proof fn policy_judges_what_is_new(
    st: PipelineView,
    keys: Seq<Seq<char>>,
    m: MessageView,
    now: Duration,
    wall: Duration,
)
    requires
        m.create_at == 0,
        st.marks.len() == 0,
        !st.locks.contains_key(m.msg_id),
        m.sender_id != st.robot,
    ensures
        judged(st, keys, m, now, wall) == policy_gate::verdict(st.policy, m),
{
    assert forall|i: int| 0 <= i < keys.len() implies !seen_cache::fresh(
        st.marks,
        #[trigger] keys[i],
        now.nanos,
    ) by {
        crate::safety::recent::lemma_place(st.marks, keys[i]);
    }
}

/// What the robot wrote is judged like any other message where that is wanted.
pub proof fn own_messages_can_be_wanted(
    st: PipelineView,
    keys: Seq<Seq<char>>,
    m: MessageView,
    now: Duration,
    wall: Duration,
)
    requires
        !st.drop_self_sent || st.robot.len() == 0,
    ensures
        judged(st, keys, m, now, wall) != RejectReason::SelfSent || policy_gate::verdict(
            st.policy,
            m,
        ) == RejectReason::SelfSent,
{
}

/// A message whose lock is held is not handled, whatever the policy says.
pub proof fn locked_message_is_not_handled(
    st: PipelineView,
    keys: Seq<Seq<char>>,
    m: MessageView,
    now: Duration,
    wall: Duration,
)
    requires
        st.locks.contains_key(m.msg_id),
        now.nanos < st.locks[m.msg_id].nanos,
    ensures
        judged(st, keys, m, now, wall) != RejectReason::Admitted,
        after_message(st, keys, m, now, wall).locks == st.locks,
{
}

/// A message is known by its delivery and by its own key, and by what it says
/// where it says something at a known time.
pub proof fn message_has_its_keys(proto_id: Seq<char>, m: MessageView)
    ensures
        ({
            let keys = keys_of(proto_id, m);
            let said = m.text.len() > 0 && m.create_at > 0;
            &&& keys[0] == proto_id
            &&& keys[1] == m.msg_id
            &&& said ==> keys.len() == 3 && keys[2] == seen_cache::fingerprint(
                m.conversation_id,
                m.create_at as int,
                m.msg_type,
                m.text,
            )
            &&& !said ==> keys.len() == 2
        }),
{
}

/// The lock of an admitted message is held for its time, and no longer.
pub proof fn lock_is_held_for_its_time(
    st: PipelineView,
    keys: Seq<Seq<char>>,
    m: MessageView,
    now: Duration,
    wall: Duration,
    then: Duration,
)
    requires
        judged(st, keys, m, now, wall) == RejectReason::Admitted,
        now.nanos + st.lock_ttl.nanos <= u128::MAX,
    ensures
        stale::held(after_message(st, keys, m, now, wall).locks, m.msg_id, then) <==> then.nanos
            < now.nanos + st.lock_ttl.nanos,
{
}

/// An action that was run is not run again while its lock is held; and one that is
/// new is run.
pub proof fn action_is_run_once_at_a_time(
    st: PipelineView,
    keys: Seq<Seq<char>>,
    now: Duration,
    again: Seq<Seq<char>>,
    then: Duration,
)
    requires
        keys.len() > 0,
        again.len() > 0,
        again[0] == keys[0],
        now.nanos + st.lock_ttl.nanos <= u128::MAX,
        then.nanos < now.nanos + st.lock_ttl.nanos,
    ensures
        action_admitted(st, keys, now) ==> !action_admitted(
            after_action(st, keys, now),
            again,
            then,
        ),
        st.marks.len() == 0 && !st.locks.contains_key(keys[0]) ==> action_admitted(st, keys, now),
        !action_admitted(st, keys, now) ==> after_action(st, keys, now).locks == st.locks,
{
    if st.marks.len() == 0 {
        assert forall|i: int| 0 <= i < keys.len() implies !seen_cache::fresh(
            st.marks,
            #[trigger] keys[i],
            now.nanos,
        ) by {
            crate::safety::recent::lemma_place(st.marks, keys[i]);
        }
    }
}

/// A message that is not admitted is told with its reason, and the queues stay; one
/// that is admitted is handled at once without queues, put to others where they are
/// handled together, and else behind what waits.
pub proof fn way_of_a_message(
    queue: ChatQueueManager,
    after: ChatQueueManager,
    reason: RejectReason,
    msg: Arc<IncomingMessage>,
    has_on_batch: bool,
    r: Admission,
)
    requires
        taken_in(queue, after, reason, msg, has_on_batch, r),
    ensures
        r is Rejected <==> reason != RejectReason::Admitted,
        r is Direct <==> reason == RejectReason::Admitted && !queue.is_enabled(),
        r is Batched <==> reason == RejectReason::Admitted && queue.is_enabled() && has_on_batch,
        r is Serial <==> reason == RejectReason::Admitted && queue.is_enabled() && !has_on_batch,
        r is Rejected || r is Direct ==> after == queue,
        r matches Admission::Rejected(e) ==> e@.reason == reason && e@.message_id == msg@.msg_id
            && e@.chat_id == msg@.conversation_id && e@.sender_id == msg@.sender_id,
        r is Serial ==> after.waiting(msg@.conversation_id).len() == 0,
        r matches Admission::Batched(QueueStep::Wait { .. }) ==> after.waiting(
            msg@.conversation_id,
        ) == queue.waiting(msg@.conversation_id).push(msg),
        r matches Admission::Batched(QueueStep::Dispatch(_)) ==> after.waiting(
            msg@.conversation_id,
        ).len() == 0,
{
}

/// An action that was marked is not run, while its mark holds.
pub proof fn marked_action_is_not_run(
    st: PipelineView,
    keys: Seq<Seq<char>>,
    now: Duration,
    i: int,
)
    requires
        0 <= i < keys.len(),
        keys[i].len() > 0,
        crate::safety::recent::at(st.marks, keys[i]) matches Some(end) && now.nanos < end,
    ensures
        !action_admitted(st, keys, now),
        after_action(st, keys, now).locks == st.locks,
{
    assert(seen_cache::fresh(st.marks, keys[i], now.nanos));
}

} // verus!
