//! A map from texts to values, kept as a list of entries.

use crate::text;
use vstd::prelude::*;

verus! {

/// Entries with a text as their key.
#[derive(Debug, Default)]
pub struct KeyedMap<V> {
    entries: Vec<(String, V)>,
}

/// The map that a list of entries stands for: a later entry with the same key
/// replaces an earlier one.
pub open spec fn map_of<V>(s: Seq<(String, V)>) -> Map<Seq<char>, V>
    decreases s.len(),
{
    if s.len() == 0 {
        Map::empty()
    } else {
        map_of(s.drop_last()).insert(s.last().0@, s.last().1)
    }
}

/// The map with what its values stand for.
pub open spec fn seen<V: View>(m: Map<Seq<char>, V>) -> Map<Seq<char>, V::V> {
    Map::new(|k: Seq<char>| m.contains_key(k), |k: Seq<char>| m[k]@)
}

/// Setting the value of a key sets what stands under it.
pub proof fn seen_insert<V: View>(m: Map<Seq<char>, V>, key: Seq<char>, value: V)
    ensures
        seen(m.insert(key, value)) == seen(m).insert(key, value@),
{
    assert(seen(m.insert(key, value)) =~= seen(m).insert(key, value@));
}

/// No key occurs twice.
pub open spec fn distinct<V>(s: Seq<(String, V)>) -> bool {
    forall|i: int, j: int| 0 <= i < j < s.len() ==> (#[trigger] s[i]).0@ != (#[trigger] s[j]).0@
}

/// The keys of the map are the keys of the entries.
pub proof fn lemma_map_dom<V>(s: Seq<(String, V)>, k: Seq<char>)
    ensures
        map_of(s).contains_key(k) <==> exists|i: int| 0 <= i < s.len() && (#[trigger] s[i]).0@ == k,
    decreases s.len(),
{
    if s.len() > 0 {
        let t = s.drop_last();
        lemma_map_dom(t, k);
        if map_of(s).contains_key(k) {
            if s.last().0@ == k {
                assert(s[s.len() - 1].0@ == k);
            } else {
                let i = choose|i: int| 0 <= i < t.len() && (#[trigger] t[i]).0@ == k;
                assert(s[i].0@ == k);
            }
        }
        if exists|i: int| 0 <= i < s.len() && (#[trigger] s[i]).0@ == k {
            let i = choose|i: int| 0 <= i < s.len() && (#[trigger] s[i]).0@ == k;
            if i < t.len() {
                assert(t[i].0@ == k);
            }
        }
    }
}

/// The last entry with a key gives the value.
proof fn lemma_map_last<V>(s: Seq<(String, V)>, i: int)
    requires
        0 <= i < s.len(),
        forall|j: int| i < j < s.len() ==> (#[trigger] s[j]).0@ != s[i].0@,
    ensures
        map_of(s).contains_key(s[i].0@),
        map_of(s)[s[i].0@] == s[i].1,
    decreases s.len(),
{
    if i < s.len() - 1 {
        let t = s.drop_last();
        assert(s[s.len() - 1].0@ != s[i].0@);
        assert forall|j: int| i < j < t.len() implies (#[trigger] t[j]).0@ != t[i].0@ by {
            assert(s[j].0@ != s[i].0@);
        }
        lemma_map_last(t, i);
    }
}

/// Replacing the value of the last entry with a key.
proof fn lemma_map_update<V>(s: Seq<(String, V)>, i: int, e: (String, V))
    requires
        0 <= i < s.len(),
        e.0@ == s[i].0@,
        forall|j: int| i < j < s.len() ==> (#[trigger] s[j]).0@ != s[i].0@,
    ensures
        map_of(s.update(i, e)) == map_of(s).insert(e.0@, e.1),
    decreases s.len(),
{
    let u = s.update(i, e);
    let t = s.drop_last();
    if i == s.len() - 1 {
        assert(u.drop_last() =~= t);
        assert(map_of(u) =~= map_of(s).insert(e.0@, e.1));
    } else {
        assert(u.drop_last() =~= t.update(i, e));
        assert forall|j: int| i < j < t.len() implies (#[trigger] t[j]).0@ != t[i].0@ by {
            assert(s[j].0@ != s[i].0@);
        }
        lemma_map_update(t, i, e);
        assert(s[s.len() - 1].0@ != s[i].0@);
        assert(map_of(u) =~= map_of(s).insert(e.0@, e.1));
    }
}

/// Distinct keys are as many as entries.
proof fn lemma_map_len<V>(s: Seq<(String, V)>)
    requires
        distinct(s),
    ensures
        map_of(s).dom().finite(),
        map_of(s).dom().len() == s.len(),
    decreases s.len(),
{
    if s.len() > 0 {
        let t = s.drop_last();
        assert(distinct(t)) by {
            assert forall|i: int, j: int| 0 <= i < j < t.len() implies (#[trigger] t[i]).0@ != (
            #[trigger] t[j]).0@ by {
                assert(s[i].0@ != s[j].0@);
            }
        }
        lemma_map_len(t);
        lemma_map_dom(t, s.last().0@);
        assert(!map_of(t).contains_key(s.last().0@)) by {
            if map_of(t).contains_key(s.last().0@) {
                let i = choose|i: int| 0 <= i < t.len() && (#[trigger] t[i]).0@ == s.last().0@;
                assert(s[i].0@ != s[s.len() - 1].0@);
            }
        }
        assert(map_of(s).dom() =~= map_of(t).dom().insert(s.last().0@));
    } else {
        assert(map_of(s).dom() =~= Set::<Seq<char>>::empty());
    }
}

impl<V> View for KeyedMap<V> {
    type V = Map<Seq<char>, V>;

    closed spec fn view(&self) -> Map<Seq<char>, V> {
        map_of(self.entries@)
    }
}

impl<V> KeyedMap<V> {
    /// Every key has one entry.
    pub closed spec fn wf(&self) -> bool {
        distinct(self.entries@)
    }

    /// The entries in the order in which their keys were first inserted.
    pub closed spec fn list(&self) -> Seq<(String, V)> {
        self.entries@
    }

    /// The map is what its list of entries stands for.
    pub proof fn lemma_list(&self)
        ensures
            self@ == map_of(self.list()),
            self.wf() == distinct(self.list()),
    {
    }

    pub fn new() -> (r: KeyedMap<V>)
        ensures
            r.wf(),
            r@ == Map::<Seq<char>, V>::empty(),
            r.list() == Seq::<(String, V)>::empty(),
    {
        KeyedMap { entries: Vec::new() }
    }

    /// The position of the last entry with the key, or the number of entries.
    fn position(&self, key: &str) -> (r: usize)
        ensures
            r <= self.entries@.len(),
            r < self.entries@.len() ==> {
                &&& self.entries@[r as int].0@ == key@
                &&& forall|j: int|
                    r < j < self.entries@.len() ==> (#[trigger] self.entries@[j]).0@ != key@
                &&& self@.contains_key(key@)
                &&& self@[key@] == self.entries@[r as int].1
            },
            r == self.entries@.len() ==> !self@.contains_key(key@) && forall|j: int|
                0 <= j < self.entries@.len() ==> (#[trigger] self.entries@[j]).0@ != key@,
    {
        let n: usize = self.entries.len();
        let mut i: usize = n;
        while i > 0
            invariant
                n == self.entries@.len(),
                i <= n,
                forall|j: int| i <= j < n ==> (#[trigger] self.entries@[j]).0@ != key@,
            decreases i,
        {
            i -= 1;
            if text::same(self.entries[i].0.as_str(), key) {
                proof {
                    lemma_map_last(self.entries@, i as int);
                }
                return i;
            }
        }
        proof {
            lemma_map_dom(self.entries@, key@);
        }
        n
    }

    pub fn get(&self, key: &str) -> (r: Option<&V>)
        ensures
            match r {
                Some(v) => self@.contains_key(key@) && *v == self@[key@],
                None => !self@.contains_key(key@),
            },
    {
        let i = self.position(key);
        if i < self.entries.len() {
            Some(&self.entries[i].1)
        } else {
            None
        }
    }

    pub fn contains_key(&self, key: &str) -> (r: bool)
        ensures
            r == self@.contains_key(key@),
    {
        self.position(key) < self.entries.len()
    }

    /// Sets the value of a key.
    pub fn insert(&mut self, key: String, value: V)
        ensures
            final(self)@ == old(self)@.insert(key@, value),
            old(self).wf() ==> final(self).wf(),
            !old(self)@.contains_key(key@) ==> final(self).list() == old(self).list().push(
                (key, value),
            ),
    {
        let i = self.position(key.as_str());
        let ghost before = self.entries@;
        if i < self.entries.len() {
            proof {
                lemma_map_update(before, i as int, (key, value));
            }
            self.entries.set(i, (key, value));
            assert(distinct(before) ==> distinct(self.entries@)) by {
                assert forall|a: int, b: int|
                    distinct(before) && 0 <= a < b < self.entries@.len() implies (
                #[trigger] self.entries@[a]).0@ != (#[trigger] self.entries@[b]).0@ by {
                    assert(before[a].0@ != before[b].0@);
                }
            }
        } else {
            self.entries.push((key, value));
            assert(self.entries@.drop_last() =~= before);
            assert(distinct(before) ==> distinct(self.entries@)) by {
                assert forall|a: int, b: int|
                    distinct(before) && 0 <= a < b < self.entries@.len() implies (
                #[trigger] self.entries@[a]).0@ != (#[trigger] self.entries@[b]).0@ by {
                    assert(before[a].0@ == self.entries@[a].0@);
                    if b < before.len() {
                        assert(before[a].0@ != before[b].0@);
                    }
                }
            }
        }
    }

    /// Removes a key.
    pub fn remove(&mut self, key: &str)
        requires
            old(self).wf(),
        ensures
            final(self).wf(),
            final(self)@ == old(self)@.remove(key@),
    {
        let i = self.position(key);
        let ghost before = self.entries@;
        if i < self.entries.len() {
            self.entries.remove(i);
            let ghost after = self.entries@;
            proof {
                assert forall|a: int, b: int| 0 <= a < b < after.len() implies (
                #[trigger] after[a]).0@ != (#[trigger] after[b]).0@ by {
                    let x = if a < i { a } else { a + 1 };
                    let y = if b < i { b } else { b + 1 };
                    assert(before[x].0@ != before[y].0@);
                }
                lemma_removed(before, i as int);
            }
        } else {
            assert(map_of(before) =~= map_of(before).remove(key@));
        }
    }

    /// Takes the value of a key out.
    pub fn take(&mut self, key: &str) -> (r: Option<V>)
        requires
            old(self).wf(),
        ensures
            final(self).wf(),
            final(self)@ == old(self)@.remove(key@),
            match r {
                Some(v) => old(self)@.contains_key(key@) && v == old(self)@[key@],
                None => !old(self)@.contains_key(key@),
            },
    {
        let i = self.position(key);
        let ghost before = self.entries@;
        if i < self.entries.len() {
            let (_, value) = self.entries.remove(i);
            let ghost after = self.entries@;
            proof {
                assert forall|a: int, b: int| 0 <= a < b < after.len() implies (
                #[trigger] after[a]).0@ != (#[trigger] after[b]).0@ by {
                    let x = if a < i { a } else { a + 1 };
                    let y = if b < i { b } else { b + 1 };
                    assert(before[x].0@ != before[y].0@);
                }
                lemma_removed(before, i as int);
            }
            Some(value)
        } else {
            assert(map_of(before) =~= map_of(before).remove(key@));
            None
        }
    }

    /// The keys, each once.
    pub fn keys(&self) -> (r: Vec<String>)
        requires
            self.wf(),
        ensures
            r@.len() == self@.dom().len(),
            forall|i: int| 0 <= i < r@.len() ==> self@.contains_key((#[trigger] r@[i])@),
            forall|k: Seq<char>| #[trigger]
                self@.contains_key(k) ==> exists|i: int|
                    0 <= i < r@.len() && (#[trigger] r@[i])@ == k,
            forall|i: int, j: int|
                0 <= i < j < r@.len() ==> (#[trigger] r@[i])@ != (#[trigger] r@[j])@,
    {
        let mut out: Vec<String> = Vec::new();
        let mut i: usize = 0;
        while i < self.entries.len()
            invariant
                i <= self.entries@.len(),
                out@.len() == i,
                forall|k: int| 0 <= k < i ==> (#[trigger] out@[k])@ == self.entries@[k].0@,
            decreases self.entries@.len() - i,
        {
            out.push(self.entries[i].0.clone());
            i += 1;
        }
        proof {
            lemma_map_len(self.entries@);
            assert forall|k: int| 0 <= k < out@.len() implies self@.contains_key(
                (#[trigger] out@[k])@,
            ) by {
                lemma_map_dom(self.entries@, out@[k]@);
                assert(self.entries@[k].0@ == out@[k]@);
            }
            assert forall|k: Seq<char>| #[trigger] self@.contains_key(k) implies exists|j: int|
                0 <= j < out@.len() && (#[trigger] out@[j])@ == k by {
                lemma_map_dom(self.entries@, k);
                let j = choose|j: int|
                    0 <= j < self.entries@.len() && (#[trigger] self.entries@[j]).0@ == k;
                assert(out@[j]@ == k);
            }
            assert forall|a: int, b: int| 0 <= a < b < out@.len() implies (#[trigger] out@[a])@
                != (#[trigger] out@[b])@ by {
                assert(self.entries@[a].0@ != self.entries@[b].0@);
            }
        }
        out
    }

    /// The number of entries.
    pub fn len(&self) -> (r: usize)
        ensures
            r == self.list().len(),
            self.wf() ==> self@.dom().finite() && r == self@.dom().len(),
    {
        proof {
            if self.wf() {
                lemma_map_len(self.entries@);
            }
        }
        self.entries.len()
    }

    /// Removes every entry.
    pub fn clear(&mut self)
        ensures
            final(self).wf(),
            final(self)@ == Map::<Seq<char>, V>::empty(),
    {
        self.entries.clear();
    }

    /// The entry at a position of the list.
    pub fn entry(&self, i: usize) -> (r: (&String, &V))
        requires
            i < self.list().len(),
        ensures
            *r.0 == self.list()[i as int].0,
            *r.1 == self.list()[i as int].1,
    {
        (&self.entries[i].0, &self.entries[i].1)
    }
}

/// Removing one entry of a list with distinct keys removes its key.
proof fn lemma_removed<V>(s: Seq<(String, V)>, i: int)
    requires
        0 <= i < s.len(),
        distinct(s),
    ensures
        map_of(s.remove(i)) == map_of(s).remove(s[i].0@),
    decreases s.len(),
{
    let r = s.remove(i);
    let t = s.drop_last();
    let k = s[i].0@;
    assert(distinct(t)) by {
        assert forall|a: int, b: int| 0 <= a < b < t.len() implies (#[trigger] t[a]).0@ != (
        #[trigger] t[b]).0@ by {
            assert(s[a].0@ != s[b].0@);
        }
    }
    if i == s.len() - 1 {
        assert(r =~= t);
        lemma_map_dom(t, k);
        assert(!map_of(t).contains_key(k)) by {
            if map_of(t).contains_key(k) {
                let j = choose|j: int| 0 <= j < t.len() && (#[trigger] t[j]).0@ == k;
                assert(s[j].0@ != s[i].0@);
            }
        }
        assert(map_of(r) =~= map_of(s).remove(k));
    } else {
        lemma_removed(t, i);
        assert(r.drop_last() =~= t.remove(i));
        assert(s[i].0@ != s[s.len() - 1].0@);
        assert(map_of(r) =~= map_of(s).remove(k));
    }
}

} // verus!
