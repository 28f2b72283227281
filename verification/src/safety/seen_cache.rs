//! Messages that came in before.

use crate::safety::recent;
use crate::safety::recent::{lru_clear, lru_get, lru_len, lru_new, lru_pop, lru_put};
use crate::text;
use crate::time;
use crate::time::{Clock, Duration};
use crate::types::DedupConfig;
use vstd::prelude::*;

verus! {

/// The texts of a list of names.
pub open spec fn names(keys: Seq<&str>) -> Seq<Seq<char>> {
    Seq::new(keys.len(), |i: int| keys[i]@)
}

/// A key was marked and its time has not run out. The empty key is never
/// marked.
pub open spec fn fresh(s: Seq<(Seq<char>, u128)>, key: Seq<char>, now: u128) -> bool {
    key.len() > 0 && (recent::at(s, key) matches Some(end) && now < end)
}

/// One of the keys was marked and its time has not run out.
pub open spec fn any_fresh(s: Seq<(Seq<char>, u128)>, keys: Seq<Seq<char>>, now: u128) -> bool {
    exists|i: int| 0 <= i < keys.len() && #[trigger] fresh(s, keys[i], now)
}

/// The entries once the keys were looked for, in their order: up to the first
/// that is fresh, which moves to the front, every one whose time has run out is
/// taken out.
pub open spec fn after_has(
    s: Seq<(Seq<char>, u128)>,
    keys: Seq<Seq<char>>,
    now: u128,
) -> Seq<(Seq<char>, u128)>
    decreases keys.len(),
{
    if keys.len() == 0 {
        s
    } else if fresh(s, keys[0], now) {
        recent::touched(s, keys[0])
    } else if keys[0].len() > 0 && recent::at(s, keys[0]) is Some {
        after_has(recent::without(s, keys[0]), keys.skip(1), now)
    } else {
        after_has(s, keys.skip(1), now)
    }
}

/// The entries once the keys were marked up to some time.
pub open spec fn after_add(
    s: Seq<(Seq<char>, u128)>,
    keys: Seq<Seq<char>>,
    end: u128,
    room: nat,
) -> Seq<(Seq<char>, u128)>
    decreases keys.len(),
{
    if keys.len() == 0 {
        s
    } else if keys.last().len() == 0 {
        after_add(s, keys.drop_last(), end, room)
    } else {
        recent::put_first(after_add(s, keys.drop_last(), end, room), keys.last(), end, room)
    }
}

/// The entries once the keys were looked for and, where none was fresh, marked.
pub open spec fn after_check(
    s: Seq<(Seq<char>, u128)>,
    keys: Seq<Seq<char>>,
    now: u128,
    end: u128,
    room: nat,
) -> Seq<(Seq<char>, u128)> {
    if any_fresh(s, keys, now) {
        after_has(s, keys, now)
    } else {
        after_add(after_has(s, keys, now), keys, end, room)
    }
}

/// Remembers messages by several keys for some time, and no more than so many
/// keys.
pub struct SeenCache {
    cfg: DedupConfig,
    map: lru::LruCache<String, u128>,
    clock: Clock,
}

impl SeenCache {
    /// The marked keys with the end of their time, the one used last first.
    pub closed spec fn marks(&self) -> Seq<(Seq<char>, u128)> {
        recent::entries(self.map)
    }

    /// How many keys are remembered at most.
    pub closed spec fn room(&self) -> nat {
        recent::capacity(self.map)
    }

    /// For how long a key is remembered.
    pub closed spec fn ttl(&self) -> Duration {
        self.cfg.ttl
    }

    /// There are never more keys than there is room for.
    pub closed spec fn wf(&self) -> bool {
        &&& self.room() > 0
        &&& self.marks().len() <= self.room()
    }

    /// There is room for a key, and never more keys than there is room for.
    pub proof fn keys_have_room(&self)
        requires
            self.wf(),
        ensures
            self.room() > 0,
            self.marks().len() <= self.room(),
    {
    }

    pub fn new(cfg: DedupConfig) -> (r: SeenCache)
        requires
            cfg.max_entries <= usize::MAX / 256,
        ensures
            r.wf(),
            r.marks() == Seq::<(Seq<char>, u128)>::empty(),
            r.room() == (if cfg.max_entries == 0 {
                1
            } else {
                cfg.max_entries as nat
            }),
            r.ttl() == cfg.ttl,
    {
        let room = if cfg.max_entries == 0 {
            1
        } else {
            cfg.max_entries
        };
        SeenCache { cfg, map: lru_new(room), clock: Clock::start() }
    }

    /// Whether one of the keys is fresh at the given time of the clock.
    pub fn has_at(&mut self, keys: &[&str], now: Duration) -> (r: bool)
        requires
            old(self).wf(),
        ensures
            final(self).wf(),
            r == any_fresh(old(self).marks(), names(keys@), now.nanos),
            final(self).marks() == after_has(old(self).marks(), names(keys@), now.nanos),
            final(self).room() == old(self).room(),
            final(self).ttl() == old(self).ttl(),
    {
        let ghost s0 = self.marks();
        let ghost all = names(keys@);
        let mut i: usize = 0;
        assert(all.skip(0) =~= all);
        while i < keys.len()
            invariant
                i <= keys@.len(),
                all == names(keys@),
                s0 == old(self).marks(),
                self.wf(),
                self.room() == old(self).room(),
                self.ttl() == old(self).ttl(),
                any_fresh(s0, all, now.nanos) == any_fresh(
                    self.marks(),
                    all.skip(i as int),
                    now.nanos,
                ),
                after_has(s0, all, now.nanos) == after_has(
                    self.marks(),
                    all.skip(i as int),
                    now.nanos,
                ),
            decreases keys@.len() - i,
        {
            let key = keys[i];
            let ghost rest = all.skip(i as int);
            let ghost s = self.marks();
            proof {
                assert(rest[0] == key@);
                assert(rest.skip(1) =~= all.skip(i + 1));
            }
            if !key.is_empty() {
                match lru_get(&mut self.map, key) {
                    Some(end) => {
                        proof {
                            recent::touched_keeps_values(s, key@, key@);
                        }
                        if now.nanos < end {
                            assert(fresh(s, rest[0], now.nanos));
                            return true;
                        }
                        proof {
                            lemma_touched_without(s, key@);
                            recent::without_keeps_others(s, key@, key@);
                            lemma_stale_key(s, rest, now.nanos);
                        }
                        lru_pop(&mut self.map, key);
                    },
                    None => {
                        proof {
                            lemma_unmarked_key(s, rest, now.nanos);
                        }
                    },
                }
            } else {
                proof {
                    lemma_unmarked_key(s, rest, now.nanos);
                }
            }
            i += 1;
        }
        proof {
            assert(all.skip(i as int) =~= Seq::empty());
            assert(!any_fresh(self.marks(), all.skip(i as int), now.nanos));
        }
        false
    }

    /// Whether one of the keys is fresh. What the clock says decides: a key is
    /// fresh only where it is marked.
    pub fn has(&mut self, keys: &[&str]) -> (r: bool)
        requires
            old(self).wf(),
        ensures
            final(self).wf(),
            exists|now: Duration|
                {
                    &&& r == #[trigger] any_fresh(old(self).marks(), names(keys@), now.nanos)
                    &&& final(self).marks() == after_has(
                        old(self).marks(),
                        names(keys@),
                        now.nanos,
                    )
                },
            final(self).room() == old(self).room(),
            final(self).ttl() == old(self).ttl(),
    {
        let now = self.clock.now();
        self.has_at(keys, now)
    }

    /// Marks the keys at the given time of the clock.
    pub fn add_at(&mut self, keys: &[&str], now: Duration)
        requires
            old(self).wf(),
        ensures
            final(self).wf(),
            final(self).marks() == after_add(
                old(self).marks(),
                names(keys@),
                time::sum(now, old(self).ttl()) as u128,
                old(self).room(),
            ),
            final(self).room() == old(self).room(),
            final(self).ttl() == old(self).ttl(),
    {
        let ghost s0 = self.marks();
        let ghost all = names(keys@);
        let end = now.plus(self.cfg.ttl);
        let mut i: usize = 0;
        assert(all.take(0) =~= Seq::empty());
        while i < keys.len()
            invariant
                i <= keys@.len(),
                all == names(keys@),
                s0 == old(self).marks(),
                self.wf(),
                self.room() == old(self).room(),
                self.ttl() == old(self).ttl(),
                self.marks() == after_add(s0, all.take(i as int), end.nanos, old(self).room()),
            decreases keys@.len() - i,
        {
            let key = keys[i];
            proof {
                assert(all.take(i + 1).last() == key@);
                assert(all.take(i + 1).drop_last() =~= all.take(i as int));
                recent::put_first_effect(self.marks(), key@, end.nanos, self.room(), key@);
            }
            if !key.is_empty() {
                lru_put(&mut self.map, text::owned(key), end.nanos);
            }
            i += 1;
        }
        assert(all.take(i as int) =~= all);
    }

    /// Marks the keys.
    pub fn add(&mut self, keys: &[&str])
        requires
            old(self).wf(),
        ensures
            final(self).wf(),
            exists|now: Duration|
                final(self).marks() == after_add(
                    old(self).marks(),
                    names(keys@),
                    #[trigger] time::sum(now, old(self).ttl()) as u128,
                    old(self).room(),
                ),
            final(self).room() == old(self).room(),
            final(self).ttl() == old(self).ttl(),
    {
        let now = self.clock.now();
        self.add_at(keys, now);
    }

    /// Whether one of the keys is fresh at the given time of the clock; where
    /// none is, all are marked.
    pub fn check_and_mark_at(&mut self, keys: &[&str], now: Duration) -> (r: bool)
        requires
            old(self).wf(),
        ensures
            final(self).wf(),
            r == any_fresh(old(self).marks(), names(keys@), now.nanos),
            final(self).marks() == after_check(
                old(self).marks(),
                names(keys@),
                now.nanos,
                time::sum(now, old(self).ttl()) as u128,
                old(self).room(),
            ),
            final(self).room() == old(self).room(),
            final(self).ttl() == old(self).ttl(),
    {
        if self.has_at(keys, now) {
            return true;
        }
        self.add_at(keys, now);
        false
    }

    /// Whether one of the keys is fresh; where none is, all are marked.
    pub fn check_and_mark(&mut self, keys: &[&str]) -> (r: bool)
        requires
            old(self).wf(),
        ensures
            final(self).wf(),
            exists|now: Duration|
                {
                    &&& r == any_fresh(old(self).marks(), names(keys@), now.nanos)
                    &&& final(self).marks() == after_check(
                        old(self).marks(),
                        names(keys@),
                        now.nanos,
                        #[trigger] time::sum(now, old(self).ttl()) as u128,
                        old(self).room(),
                    )
                },
            final(self).room() == old(self).room(),
            final(self).ttl() == old(self).ttl(),
    {
        let now = self.clock.now();
        self.check_and_mark_at(keys, now)
    }

    /// Forgets every key.
    pub fn clear(&mut self)
        requires
            old(self).wf(),
        ensures
            final(self).wf(),
            final(self).marks() == Seq::<(Seq<char>, u128)>::empty(),
            final(self).room() == old(self).room(),
            final(self).ttl() == old(self).ttl(),
    {
        lru_clear(&mut self.map);
    }

    /// How many keys are remembered.
    pub fn len(&self) -> (r: usize)
        ensures
            r == self.marks().len(),
    {
        lru_len(&self.map)
    }

    pub fn is_empty(&self) -> (r: bool)
        ensures
            r == (self.marks().len() == 0),
    {
        self.len() == 0
    }
}

/// Looking a key up and then taking it out is taking it out.
proof fn lemma_touched_without(s: Seq<(Seq<char>, u128)>, key: Seq<char>)
    ensures
        recent::without(recent::touched(s, key), key) == recent::without(s, key),
{
    if let Some(v) = recent::at(s, key) {
        let t = recent::touched(s, key);
        let w = recent::without(s, key);
        assert(t.skip(1) =~= w);
        recent::without_keeps_others(s, key, key);
        lemma_without_absent(w, key);
    } else {
        lemma_without_absent(s, key);
    }
}

/// There is nothing to take out of a key that is not there.
proof fn lemma_without_absent(s: Seq<(Seq<char>, u128)>, key: Seq<char>)
    requires
        recent::at(s, key) is None,
    ensures
        recent::without(s, key) == s,
    decreases s.len(),
{
    if s.len() > 0 {
        lemma_without_absent(s.skip(1), key);
        assert(seq![s[0]] + s.skip(1) =~= s);
    }
}

/// A key whose time has run out is taken out and decides nothing.
proof fn lemma_stale_key(s: Seq<(Seq<char>, u128)>, keys: Seq<Seq<char>>, now: u128)
    requires
        keys.len() > 0,
        !fresh(s, keys[0], now),
    ensures
        any_fresh(s, keys, now) == any_fresh(recent::without(s, keys[0]), keys.skip(1), now),
{
    let w = recent::without(s, keys[0]);
    let rest = keys.skip(1);
    if any_fresh(s, keys, now) {
        let i = choose|i: int| 0 <= i < keys.len() && #[trigger] fresh(s, keys[i], now);
        recent::without_keeps_others(s, keys[0], keys[i]);
        assert(rest[i - 1] == keys[i]);
        assert(fresh(w, rest[i - 1], now));
    }
    if any_fresh(w, rest, now) {
        let i = choose|i: int| 0 <= i < rest.len() && #[trigger] fresh(w, rest[i], now);
        recent::without_keeps_others(s, keys[0], rest[i]);
        assert(keys[i + 1] == rest[i]);
        assert(fresh(s, keys[i + 1], now));
    }
}

/// A key that is not marked decides nothing.
proof fn lemma_unmarked_key(s: Seq<(Seq<char>, u128)>, keys: Seq<Seq<char>>, now: u128)
    requires
        keys.len() > 0,
        !fresh(s, keys[0], now),
    ensures
        any_fresh(s, keys, now) == any_fresh(s, keys.skip(1), now),
{
    let rest = keys.skip(1);
    if any_fresh(s, keys, now) {
        let i = choose|i: int| 0 <= i < keys.len() && #[trigger] fresh(s, keys[i], now);
        assert(rest[i - 1] == keys[i]);
        assert(fresh(s, rest[i - 1], now));
    }
    if any_fresh(s, rest, now) {
        let i = choose|i: int| 0 <= i < rest.len() && #[trigger] fresh(s, rest[i], now);
        assert(keys[i + 1] == rest[i]);
        assert(fresh(s, keys[i + 1], now));
    }
}

// ── laws ──

/// The time of a key is over once its end is reached.
pub proof fn mark_expires(s: Seq<(Seq<char>, u128)>, key: Seq<char>, now: u128)
    requires
        recent::at(s, key) matches Some(end) && now >= end,
    ensures
        !fresh(s, key, now),
{
}

/// Marking a key leaves it fresh up to its end. Of the keys that are marked at
/// once every one stays, where there is room for all of them.
pub proof fn marked_keys_are_fresh(
    s: Seq<(Seq<char>, u128)>,
    keys: Seq<Seq<char>>,
    end: u128,
    room: nat,
    i: int,
    now: u128,
)
    requires
        s.len() <= room,
        0 <= i < keys.len() <= room,
        keys[i].len() > 0,
        now < end,
    ensures
        fresh(after_add(s, keys, end, room), keys[i], now),
        after_add(s, keys, end, room).len() <= room,
{
    lemma_marked(s, keys, end, room, i);
}

/// Each key behind a marked one moves its entry back by one place at most.
proof fn lemma_marked(
    s: Seq<(Seq<char>, u128)>,
    keys: Seq<Seq<char>>,
    end: u128,
    room: nat,
    i: int,
)
    requires
        s.len() <= room,
        0 <= i < keys.len() <= room,
        keys[i].len() > 0,
    ensures
        recent::at(after_add(s, keys, end, room), keys[i]) == Some(end),
        recent::place(after_add(s, keys, end, room), keys[i]) <= keys.len() - 1 - i,
        after_add(s, keys, end, room).len() <= room,
    decreases keys.len(),
{
    let before = keys.drop_last();
    let t = after_add(s, before, end, room);
    lemma_room(s, before, end, room);
    if keys.last().len() > 0 {
        recent::put_first_effect(t, keys.last(), end, room, keys[i]);
    }
    if i < keys.len() - 1 {
        lemma_marked(s, before, end, room, i);
        assert(before[i] == keys[i]);
    }
}

/// There are never more keys than there is room for.
proof fn lemma_room(s: Seq<(Seq<char>, u128)>, keys: Seq<Seq<char>>, end: u128, room: nat)
    requires
        s.len() <= room,
        room > 0,
    ensures
        after_add(s, keys, end, room).len() <= room,
    decreases keys.len(),
{
    if keys.len() > 0 {
        lemma_room(s, keys.drop_last(), end, room);
        recent::put_first_effect(
            after_add(s, keys.drop_last(), end, room),
            keys.last(),
            end,
            room,
            keys.last(),
        );
    }
}

/// A key that is marked stays so while fewer other keys are marked behind it
/// than there is room for.
pub proof fn mark_outlasts_later_ones(
    s: Seq<(Seq<char>, u128)>,
    later: Seq<Seq<char>>,
    end: u128,
    room: nat,
    key: Seq<char>,
)
    requires
        s.len() <= room,
        recent::at(s, key) is Some,
        recent::place(s, key) + later.len() < room,
        !later.contains(key),
    ensures
        recent::at(after_add(s, later, end, room), key) == recent::at(s, key),
        recent::place(after_add(s, later, end, room), key) <= recent::place(s, key)
            + later.len(),
    decreases later.len(),
{
    if later.len() > 0 {
        let before = later.drop_last();
        assert(!before.contains(key)) by {
            if before.contains(key) {
                let j = choose|j: int| 0 <= j < before.len() && before[j] == key;
                assert(later[j] == key);
            }
        }
        mark_outlasts_later_ones(s, before, end, room, key);
        lemma_room(s, before, end, room);
        assert(later[later.len() - 1] != key);
        recent::put_first_effect(
            after_add(s, before, end, room),
            later.last(),
            end,
            room,
            key,
        );
    }
}

/// A message that was looked for and marked is known again by any one of its
/// keys, up to the end of the time.
pub proof fn second_delivery_is_a_duplicate(
    s: Seq<(Seq<char>, u128)>,
    keys: Seq<Seq<char>>,
    now: u128,
    end: u128,
    room: nat,
    again: Seq<Seq<char>>,
    then: u128,
    i: int,
    j: int,
)
    requires
        s.len() <= room,
        0 <= i < keys.len() <= room,
        keys[i].len() > 0,
        !any_fresh(s, keys, now),
        0 <= j < again.len(),
        again[j] == keys[i],
        then < end,
    ensures
        any_fresh(after_check(s, keys, now, end, room), again, then),
{
    let t = after_has(s, keys, now);
    lemma_has_len(s, keys, now);
    marked_keys_are_fresh(t, keys, end, room, i, then);
    assert(fresh(after_check(s, keys, now, end, room), again[j], then));
}

/// Looking for keys adds none.
proof fn lemma_has_len(s: Seq<(Seq<char>, u128)>, keys: Seq<Seq<char>>, now: u128)
    ensures
        after_has(s, keys, now).len() <= s.len(),
    decreases keys.len(),
{
    if keys.len() > 0 {
        recent::touched_keeps_values(s, keys[0], keys[0]);
        recent::without_keeps_others(s, keys[0], keys[0]);
        lemma_has_len(recent::without(s, keys[0]), keys.skip(1), now);
        lemma_has_len(s, keys.skip(1), now);
    }
}

/// Looking for keys makes none fresh and takes no fresh one away.
pub proof fn looking_changes_nothing_fresh(
    s: Seq<(Seq<char>, u128)>,
    keys: Seq<Seq<char>>,
    now: u128,
    key: Seq<char>,
    then: u128,
)
    requires
        now <= then,
    ensures
        fresh(after_has(s, keys, now), key, then) == fresh(s, key, then),
    decreases keys.len(),
{
    if keys.len() > 0 {
        let k = keys[0];
        if fresh(s, k, now) {
            recent::touched_keeps_values(s, k, key);
        } else if k.len() > 0 && recent::at(s, k) is Some {
            recent::without_keeps_others(s, k, key);
            looking_changes_nothing_fresh(recent::without(s, k), keys.skip(1), now, key, then);
        } else {
            looking_changes_nothing_fresh(s, keys.skip(1), now, key, then);
        }
    }
}

// ── fingerprints ──

/// The SHA-256 digest of some bytes.
pub uninterp spec fn sha256(data: Seq<u8>) -> Seq<u8>;

/// `sha2::Sha256::digest`. The result is a function of the bytes and is 32
/// bytes long.
#[verifier::external_body]
fn sha256_digest(data: &[u8]) -> (r: Vec<u8>)
    ensures
        r@ == sha256(data@),
        r@.len() == 32,
{
    <sha2::Sha256 as sha2::Digest>::digest(data).to_vec()
}

/// A hexadecimal digit.
pub open spec fn hex_digit(d: nat) -> char {
    if d < 10 {
        ('0' as u32 + d) as char
    } else {
        ('a' as u32 + (d - 10)) as char
    }
}

/// Bytes in hexadecimal digits, two each.
pub open spec fn hex(data: Seq<u8>) -> Seq<char>
    decreases data.len(),
{
    if data.len() == 0 {
        Seq::empty()
    } else {
        hex(data.drop_last()).push(hex_digit((data.last() / 16) as nat)).push(
            hex_digit((data.last() % 16) as nat),
        )
    }
}

fn hex_char(d: u8) -> (r: char)
    requires
        d < 16,
    ensures
        r == hex_digit(d as nat),
{
    if d < 10 {
        (48 + d) as char
    } else {
        (97 + (d - 10)) as char
    }
}

/// Adds bytes in hexadecimal digits to a text.
pub fn append_hex(out: &mut String, data: &[u8])
    ensures
        final(out)@ == old(out)@ + hex(data@),
{
    let ghost before = out@;
    let mut i: usize = 0;
    assert(data@.take(0) =~= Seq::empty());
    assert(out@ =~= before + hex(data@.take(0)));
    while i < data.len()
        invariant
            i <= data@.len(),
            out@ == before + hex(data@.take(i as int)),
        decreases data@.len() - i,
    {
        let b = data[i];
        out.push(hex_char(b / 16));
        out.push(hex_char(b % 16));
        proof {
            assert(data@.take(i + 1).drop_last() =~= data@.take(i as int));
            assert(data@.take(i + 1).last() == b);
            assert(out@ =~= before + hex(data@.take(i + 1)));
        }
        i += 1;
    }
    assert(data@.take(i as int) =~= data@);
}

/// What a fingerprint is made of.
pub open spec fn fingerprint_source(
    conversation_id: Seq<char>,
    create_at: int,
    msg_type: Seq<char>,
    content: Seq<char>,
) -> Seq<char> {
    conversation_id + ":"@ + text::signed_decimal(create_at) + ":"@ + msg_type + ":"@ + content
}

/// The fingerprint with a digest.
pub open spec fn fingerprint_text(digest: Seq<u8>) -> Seq<char> {
    "fp:"@ + hex(digest)
}

/// The fingerprint of a message: where and when it was written, what type it
/// has and what it says.
pub open spec fn fingerprint(
    conversation_id: Seq<char>,
    create_at: int,
    msg_type: Seq<char>,
    content: Seq<char>,
) -> Seq<char> {
    fingerprint_text(
        sha256(
            vstd::utf8::encode_utf8(
                fingerprint_source(conversation_id, create_at, msg_type, content),
            ),
        ),
    )
}

/// The fingerprint with a digest.
pub fn fingerprint_of(digest: &[u8]) -> (r: String)
    ensures
        r@ == fingerprint_text(digest@),
{
    let mut s = text::owned("fp:");
    append_hex(&mut s, digest);
    s
}

/// The fingerprint of a message: where and when it was written, what type it
/// has and what it says.
pub fn content_fingerprint(
    conversation_id: &str,
    create_at: i64,
    msg_type: &str,
    content: &str,
) -> (r: String)
    ensures
        r@ == fingerprint(conversation_id@, create_at as int, msg_type@, content@),
{
    let mut data = text::owned(conversation_id);
    data.append(":");
    data.append(text::signed_decimal_text(create_at).as_str());
    data.append(":");
    data.append(msg_type);
    data.append(":");
    data.append(content);
    let digest = sha256_digest(data.as_str().as_bytes());
    fingerprint_of(digest.as_slice())
}

proof fn lemma_middle_differs(a: Seq<char>, x: Seq<char>, y: Seq<char>, b: Seq<char>)
    ensures
        x != y ==> a + x + b != a + y + b,
{
    let s = a + x + b;
    let t = a + y + b;
    if s == t {
        assert(s.len() == a.len() + x.len() + b.len());
        assert(t.len() == a.len() + y.len() + b.len());
        assert(s.subrange(a.len() as int, a.len() as int + x.len()) =~= x);
        assert(t.subrange(a.len() as int, a.len() as int + x.len()) =~= y);
    }
}

proof fn lemma_source(a: Seq<char>, time: int, t: Seq<char>, c: Seq<char>)
    ensures
        ({
            let d = text::signed_decimal(time);
            let s = fingerprint_source(a, time, t, c);
            &&& s == Seq::<char>::empty() + a + (":"@ + d + ":"@ + t + ":"@ + c)
            &&& s == (a + ":"@) + d + (":"@ + t + ":"@ + c)
            &&& s == (a + ":"@ + d + ":"@) + t + (":"@ + c)
            &&& s == (a + ":"@ + d + ":"@ + t + ":"@) + c + Seq::<char>::empty()
        }),
{
    let d = text::signed_decimal(time);
    let s = fingerprint_source(a, time, t, c);
    assert(s =~= Seq::<char>::empty() + a + (":"@ + d + ":"@ + t + ":"@ + c));
    assert(s =~= (a + ":"@) + d + (":"@ + t + ":"@ + c));
    assert(s =~= (a + ":"@ + d + ":"@) + t + (":"@ + c));
    assert(s =~= (a + ":"@ + d + ":"@ + t + ":"@) + c + Seq::<char>::empty());
}

/// Messages of different conversations, types or words are told apart: what their
/// fingerprints are made of differs.
pub proof fn fingerprints_tell_messages_apart(
    conversation_id: Seq<char>,
    create_at: int,
    msg_type: Seq<char>,
    content: Seq<char>,
    other: Seq<char>,
)
    ensures
        other != content ==> fingerprint_source(conversation_id, create_at, msg_type, other)
            != fingerprint_source(conversation_id, create_at, msg_type, content),
        other != conversation_id ==> fingerprint_source(other, create_at, msg_type, content)
            != fingerprint_source(conversation_id, create_at, msg_type, content),
        other != msg_type ==> fingerprint_source(conversation_id, create_at, other, content)
            != fingerprint_source(conversation_id, create_at, msg_type, content),
{
    let d = text::signed_decimal(create_at);
    lemma_source(conversation_id, create_at, msg_type, content);
    lemma_source(conversation_id, create_at, msg_type, other);
    lemma_source(other, create_at, msg_type, content);
    lemma_source(conversation_id, create_at, other, content);
    let front = conversation_id + ":"@ + d + ":"@;
    lemma_middle_differs(front + msg_type + ":"@, content, other, Seq::empty());
    lemma_middle_differs(front, msg_type, other, ":"@ + content);
    lemma_middle_differs(
        Seq::empty(),
        conversation_id,
        other,
        ":"@ + d + ":"@ + msg_type + ":"@ + content,
    );
}

/// Messages of different times are told apart.
pub proof fn fingerprints_tell_times_apart(
    conversation_id: Seq<char>,
    create_at: nat,
    later: nat,
    msg_type: Seq<char>,
    content: Seq<char>,
)
    requires
        create_at != later,
    ensures
        fingerprint_source(conversation_id, later as int, msg_type, content)
            != fingerprint_source(conversation_id, create_at as int, msg_type, content),
{
    lemma_source(conversation_id, create_at as int, msg_type, content);
    lemma_source(conversation_id, later as int, msg_type, content);
    text::written_number_is_read(create_at);
    text::written_number_is_read(later);
    lemma_middle_differs(
        conversation_id + ":"@,
        text::signed_decimal(create_at as int),
        text::signed_decimal(later as int),
        ":"@ + msg_type + ":"@ + content,
    );
}

/// A fingerprint is marked as one, and has two digits for every byte of its digest.
pub proof fn fingerprint_is_marked(digest: Seq<u8>)
    ensures
        fingerprint_text(digest).len() == 3 + 2 * digest.len(),
        fingerprint_text(digest).take(3) == "fp:"@,
{
    reveal_strlit("fp:");
    lemma_hex_len(digest);
    assert(fingerprint_text(digest).take(3) =~= "fp:"@);
}

proof fn lemma_hex_len(data: Seq<u8>)
    ensures
        hex(data).len() == 2 * data.len(),
    decreases data.len(),
{
    if data.len() > 0 {
        lemma_hex_len(data.drop_last());
    }
}

/// A key that is found fresh is the one that was used last; one whose time has run
/// out is gone.
pub proof fn found_key_was_used_last(
    s: Seq<(Seq<char>, u128)>,
    key: Seq<char>,
    end: u128,
    now: u128,
)
    requires
        key.len() > 0,
        recent::at(s, key) == Some(end),
    ensures
        now < end ==> after_has(s, seq![key], now).len() > 0 && after_has(s, seq![key], now)[0] == (
            key,
            end,
        ),
        now >= end ==> after_has(s, seq![key], now) == recent::without(s, key),
{
    let rest = seq![key].skip(1);
    assert(rest.len() == 0);
    let left = recent::without(s, key);
    assert(after_has(left, rest, now) == left);
    assert(seq![key][0] == key);
}

/// A fingerprint is made of the conversation, the time in digits, the type and the
/// words, with colons between them.
pub proof fn parts_of_a_fingerprint(a: Seq<char>, time: nat, t: Seq<char>, c: Seq<char>)
    requires
        !a.contains(':'),
        !t.contains(':'),
        !c.contains(':'),
    ensures
        text::split_on(fingerprint_source(a, time as int, t, c), ':') == seq![
            a,
            text::decimal(time),
            t,
            c,
        ],
{
    reveal_strlit(":");
    let sep = seq![':'];
    let d = text::decimal(time);
    let parts = seq![a, d, t, c];
    text::written_number_is_read(time);
    assert(!d.contains(':')) by {
        if d.contains(':') {
            let i = choose|i: int| 0 <= i < d.len() && d[i] == ':';
            assert(text::in_class(d[i], text::CharClass::Digit));
        }
    }
    assert(":"@ =~= sep);
    assert(parts.drop_last() =~= seq![a, d, t]);
    assert(seq![a, d, t].drop_last() =~= seq![a, d]);
    assert(seq![a, d].drop_last() =~= seq![a]);
    assert(text::join(seq![a], sep) == a);
    assert(text::join(seq![a, d], sep) == a + sep + d);
    assert(text::join(seq![a, d, t], sep) == a + sep + d + sep + t);
    assert(text::join(parts, sep) == a + sep + d + sep + t + sep + c);
    assert forall|i: int| 0 <= i < parts.len() implies !(#[trigger] parts[i]).contains(':') by {}
    text::join_then_split(parts, ':');
}

/// A byte is written in two digits, the higher one first.
pub proof fn bytes_are_written_in_two_digits(data: Seq<u8>, b: u8, d: nat)
    ensures
        hex(data.push(b)) == hex(data) + seq![
            hex_digit((b / 16) as nat),
            hex_digit((b % 16) as nat),
        ],
        hex(Seq::empty()).len() == 0,
        d < 10 ==> hex_digit(d) as int == '0' as int + d,
        10 <= d < 16 ==> hex_digit(d) as int == 'a' as int + d - 10,
{
    assert(data.push(b).drop_last() =~= data);
    assert(hex(data.push(b)) =~= hex(data) + seq![
        hex_digit((b / 16) as nat),
        hex_digit((b % 16) as nat),
    ]);
}

} // verus!
