//! A bounded map that forgets what was used longest ago.

use vstd::prelude::*;

verus! {

/// `lru::LruCache`, looked into only through what it holds.
#[verifier::external_type_specification]
#[verifier::external_body]
#[verifier::reject_recursive_types(K)]
#[verifier::reject_recursive_types(V)]
#[verifier::reject_recursive_types(S)]
pub struct ExLruCache<K, V, S>(lru::LruCache<K, V, S>);

/// The hasher that `lru::LruCache` comes with, carried but not looked into.
#[verifier::external_type_specification]
#[verifier::external_body]
pub struct ExDefaultHasher(lru::DefaultHasher);

/// What the map holds, the entry that was used last first.
pub uninterp spec fn entries(c: lru::LruCache<String, u128>) -> Seq<(Seq<char>, u128)>;

/// How many entries the map holds at most.
pub uninterp spec fn capacity(c: lru::LruCache<String, u128>) -> nat;

/// The value of the first entry with a key.
pub open spec fn at(s: Seq<(Seq<char>, u128)>, key: Seq<char>) -> Option<u128>
    decreases s.len(),
{
    if s.len() == 0 {
        None
    } else if s[0].0 == key {
        Some(s[0].1)
    } else {
        at(s.skip(1), key)
    }
}

/// The entries but for those with a key.
pub open spec fn without(s: Seq<(Seq<char>, u128)>, key: Seq<char>) -> Seq<(Seq<char>, u128)>
    decreases s.len(),
{
    if s.len() == 0 {
        Seq::empty()
    } else if s[0].0 == key {
        without(s.skip(1), key)
    } else {
        seq![s[0]] + without(s.skip(1), key)
    }
}

/// The entries once a key was looked up: its entry stands first.
pub open spec fn touched(s: Seq<(Seq<char>, u128)>, key: Seq<char>) -> Seq<(Seq<char>, u128)> {
    match at(s, key) {
        Some(v) => seq![(key, v)] + without(s, key),
        None => s,
    }
}

/// The entries once a value was put under a key: it stands first. Where the key
/// is new and there is no room, the entry that was used longest ago is gone.
pub open spec fn put_first(
    s: Seq<(Seq<char>, u128)>,
    key: Seq<char>,
    value: u128,
    room: nat,
) -> Seq<(Seq<char>, u128)> {
    if at(s, key) is Some {
        seq![(key, value)] + without(s, key)
    } else if s.len() >= room && s.len() > 0 {
        seq![(key, value)] + s.drop_last()
    } else {
        seq![(key, value)] + s
    }
}

/// `lru::LruCache::new` gives an empty map. It sets the memory for all its
/// entries aside at once, which no machine can do for a number of entries close
/// to the size of its address space.
#[verifier::external_body]
pub(crate) fn lru_new(room: usize) -> (r: lru::LruCache<String, u128>)
    requires
        0 < room <= usize::MAX / 256,
    ensures
        entries(r) == Seq::<(Seq<char>, u128)>::empty(),
        capacity(r) == room,
{
    lru::LruCache::new(std::num::NonZeroUsize::new(room).unwrap())
}

/// `lru::LruCache::get` gives the value of a key and moves its entry to the
/// front.
#[verifier::external_body]
pub(crate) fn lru_get(c: &mut lru::LruCache<String, u128>, key: &str) -> (r: Option<u128>)
    ensures
        r == at(entries(*old(c)), key@),
        entries(*final(c)) == touched(entries(*old(c)), key@),
        capacity(*final(c)) == capacity(*old(c)),
{
    c.get(key).copied()
}

/// `lru::LruCache::pop` takes the entry of a key out.
#[verifier::external_body]
pub(crate) fn lru_pop(c: &mut lru::LruCache<String, u128>, key: &str) -> (r: Option<u128>)
    ensures
        r == at(entries(*old(c)), key@),
        entries(*final(c)) == without(entries(*old(c)), key@),
        capacity(*final(c)) == capacity(*old(c)),
{
    c.pop(key)
}

/// `lru::LruCache::put` sets the value of a key, moves its entry to the front
/// and gives the value that the key had. Where the key is new and the map is
/// full, the last entry leaves.
#[verifier::external_body]
pub(crate) fn lru_put(c: &mut lru::LruCache<String, u128>, key: String, value: u128) -> (r: Option<
    u128,
>)
    ensures
        r == at(entries(*old(c)), key@),
        entries(*final(c)) == put_first(entries(*old(c)), key@, value, capacity(*old(c))),
        capacity(*final(c)) == capacity(*old(c)),
{
    c.put(key, value)
}

/// `lru::LruCache::clear` takes every entry out.
#[verifier::external_body]
pub(crate) fn lru_clear(c: &mut lru::LruCache<String, u128>)
    ensures
        entries(*final(c)) == Seq::<(Seq<char>, u128)>::empty(),
        capacity(*final(c)) == capacity(*old(c)),
{
    c.clear()
}

/// `lru::LruCache::len` counts the entries.
#[verifier::external_body]
pub(crate) fn lru_len(c: &lru::LruCache<String, u128>) -> (r: usize)
    ensures
        r == entries(*c).len(),
{
    c.len()
}

// ── facts about entries ──

/// Taking a key out leaves the others as they were.
pub proof fn without_keeps_others(s: Seq<(Seq<char>, u128)>, key: Seq<char>, other: Seq<char>)
    ensures
        at(without(s, key), key) is None,
        other != key ==> at(without(s, key), other) == at(s, other),
        without(s, key).len() <= s.len(),
        at(s, key) is Some ==> without(s, key).len() < s.len(),
    decreases s.len(),
{
    if s.len() > 0 {
        without_keeps_others(s.skip(1), key, other);
        if s[0].0 != key {
            let w = without(s, key);
            assert(w.skip(1) =~= without(s.skip(1), key));
        }
    }
}

/// Looking a key up changes no value.
pub proof fn touched_keeps_values(s: Seq<(Seq<char>, u128)>, key: Seq<char>, other: Seq<char>)
    ensures
        at(touched(s, key), other) == at(s, other),
        touched(s, key).len() <= s.len(),
{
    without_keeps_others(s, key, other);
    if let Some(v) = at(s, key) {
        let t = touched(s, key);
        assert(t.skip(1) =~= without(s, key));
    }
}

/// The position of the first entry with a key, or the number of entries.
pub open spec fn place(s: Seq<(Seq<char>, u128)>, key: Seq<char>) -> nat
    decreases s.len(),
{
    if s.len() == 0 || s[0].0 == key {
        0
    } else {
        1 + place(s.skip(1), key)
    }
}

/// A key has a value exactly where it has a position.
pub proof fn lemma_place(s: Seq<(Seq<char>, u128)>, key: Seq<char>)
    ensures
        place(s, key) <= s.len(),
        at(s, key) is Some <==> place(s, key) < s.len(),
    decreases s.len(),
{
    if s.len() > 0 && s[0].0 != key {
        lemma_place(s.skip(1), key);
    }
}

/// Taking another key out moves no entry back.
pub proof fn lemma_place_without(s: Seq<(Seq<char>, u128)>, key: Seq<char>, other: Seq<char>)
    requires
        other != key,
    ensures
        place(without(s, key), other) <= place(s, other),
    decreases s.len(),
{
    if s.len() > 0 {
        lemma_place_without(s.skip(1), key, other);
        lemma_place(s.skip(1), other);
        if s[0].0 != key {
            let w = without(s, key);
            assert(w.skip(1) =~= without(s.skip(1), key));
            if s[0].0 != other {
                assert(w[0].0 != other);
            }
        } else {
            without_keeps_others(s.skip(1), key, other);
        }
    }
}

/// The last entry leaves, and nothing before it.
proof fn lemma_drop_last(s: Seq<(Seq<char>, u128)>, key: Seq<char>)
    requires
        s.len() > 0,
        place(s, key) < s.len() - 1,
    ensures
        at(s.drop_last(), key) == at(s, key),
        place(s.drop_last(), key) == place(s, key),
    decreases s.len(),
{
    if s[0].0 != key {
        lemma_drop_last(s.skip(1), key);
        assert(s.drop_last().skip(1) =~= s.skip(1).drop_last());
    }
}

/// What was put under a key is there, and its entry stands first. Another
/// entry moves back by one place at most, keeps its value, and stays while it
/// is not the last of a full map.
pub proof fn put_first_effect(
    s: Seq<(Seq<char>, u128)>,
    key: Seq<char>,
    value: u128,
    room: nat,
    other: Seq<char>,
)
    requires
        s.len() <= room,
        room > 0,
    ensures
        at(put_first(s, key, value, room), key) == Some(value),
        place(put_first(s, key, value, room), key) == 0,
        put_first(s, key, value, room).len() <= room,
        other != key && at(s, other) is Some && place(s, other) + 1 < room ==> {
            &&& at(put_first(s, key, value, room), other) == at(s, other)
            &&& place(put_first(s, key, value, room), other) <= place(s, other) + 1
        },
        other != key && at(s, other) is None ==> at(put_first(s, key, value, room), other) is None,
{
    let p = put_first(s, key, value, room);
    without_keeps_others(s, key, other);
    lemma_place(s, other);
    if at(s, key) is Some {
        assert(p.skip(1) =~= without(s, key));
        if other != key {
            lemma_place_without(s, key, other);
        }
    } else if s.len() >= room && s.len() > 0 {
        assert(p.skip(1) =~= s.drop_last());
        if other != key {
            if at(s, other) is Some && place(s, other) + 1 < room {
                lemma_drop_last(s, other);
            }
            if at(s, other) is None {
                lemma_absent_prefix(s, other);
            }
        }
    } else {
        assert(p.skip(1) =~= s);
    }
}

/// A key that is not there is not there once the last entry left.
proof fn lemma_absent_prefix(s: Seq<(Seq<char>, u128)>, key: Seq<char>)
    requires
        s.len() > 0,
        at(s, key) is None,
    ensures
        at(s.drop_last(), key) is None,
    decreases s.len(),
{
    if s.len() > 1 {
        lemma_absent_prefix(s.skip(1), key);
        assert(s.drop_last().skip(1) =~= s.skip(1).drop_last());
    }
}

} // verus!
