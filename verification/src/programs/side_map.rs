//! A bounded map keyed by `(pid, tid, boottime)`, as the capture programs
//! share two of: at most one value per key, the last writer wins, and a new
//! key that finds the map full takes the place of the oldest entry.

use crate::common::StackDumpKey;
use vstd::prelude::*;

verus! {

/// How many entries a side map holds.
pub const SIDE_MAP_CAPACITY: usize = 64;

/// One entry of a side map.
#[derive(Clone, Copy, Debug, PartialEq, Eq)]
pub struct Entry<V> {
    pub key: StackDumpKey,
    pub value: V,
}

/// Whether `s` holds an entry under `key`.
pub open spec fn has_entry<V>(s: Seq<Entry<V>>, key: StackDumpKey) -> bool {
    exists|i: int| 0 <= i < s.len() && (#[trigger] s[i]).key == key
}

/// The value that `s` holds under `key`: that of its oldest entry with the
/// key.
pub open spec fn entry_value<V>(s: Seq<Entry<V>>, key: StackDumpKey) -> Option<V>
    decreases s.len(),
{
    if s.len() == 0 {
        None
    } else if s[0].key == key {
        Some(s[0].value)
    } else {
        entry_value(s.drop_first(), key)
    }
}

/// No two entries of `s` have the same key.
pub open spec fn distinct_entries<V>(s: Seq<Entry<V>>) -> bool {
    forall|i: int, j: int| 0 <= i < j < s.len() ==> (#[trigger] s[i]).key != (#[trigger] s[j]).key
}

/// The entries of `s` but those under `key`, in order.
pub open spec fn without_entry<V>(s: Seq<Entry<V>>, key: StackDumpKey) -> Seq<Entry<V>> {
    s.filter(|e: Entry<V>| e.key != key)
}

/// `s` after the value `value` is written under `key`: an older entry under
/// the key is gone, the oldest entry has made room where the map was full,
/// and the new entry is the youngest.
pub open spec fn with_entry<V>(s: Seq<Entry<V>>, key: StackDumpKey, value: V) -> Seq<Entry<V>> {
    let rest = without_entry(s, key);
    let room = if rest.len() >= SIDE_MAP_CAPACITY {
        rest.drop_first()
    } else {
        rest
    };
    room.push(Entry { key, value })
}

/// Removing the one entry under a key is filtering by the key.
pub proof fn lemma_without_entry_at<V>(s: Seq<Entry<V>>, i: int)
    requires
        distinct_entries(s),
        0 <= i < s.len(),
    ensures
        without_entry(s, s[i].key) == s.remove(i),
    decreases s.len(),
{
    reveal(Seq::filter);
    let key = s[i].key;
    let t = s.drop_last();
    assert(distinct_entries(t)) by {
        assert forall|a: int, b: int| 0 <= a < b < t.len() implies (#[trigger] t[a]).key != (
        #[trigger] t[b]).key by {
            assert(s[a] == t[a] && s[b] == t[b]);
        }
    }
    if i == s.len() - 1 {
        assert forall|a: int| 0 <= a < t.len() implies (#[trigger] t[a]).key != key by {
            assert(s[a] == t[a]);
        }
        lemma_without_entry_absent(t, key);
        assert(s.remove(i) =~= t);
    } else {
        lemma_without_entry_at(t, i);
        assert(s[s.len() - 1].key != s[i].key);
        assert(s.remove(i) =~= t.remove(i).push(s.last()));
    }
}

/// Filtering by a key that no entry has changes nothing.
pub proof fn lemma_without_entry_absent<V>(s: Seq<Entry<V>>, key: StackDumpKey)
    requires
        forall|a: int| 0 <= a < s.len() ==> (#[trigger] s[a]).key != key,
    ensures
        without_entry(s, key) == s,
    decreases s.len(),
{
    reveal(Seq::filter);
    if s.len() > 0 {
        let t = s.drop_last();
        assert forall|a: int| 0 <= a < t.len() implies (#[trigger] t[a]).key != key by {
            assert(s[a] == t[a]);
        }
        lemma_without_entry_absent(t, key);
        assert(s[s.len() - 1].key != key);
        assert(t.push(s.last()) =~= s);
    }
}

/// The value under a key is that of the entry with the key.
pub proof fn lemma_entry_value_at<V>(s: Seq<Entry<V>>, i: int)
    requires
        distinct_entries(s),
        0 <= i < s.len(),
    ensures
        entry_value(s, s[i].key) == Some(s[i].value),
    decreases i,
{
    if i > 0 {
        let t = s.drop_first();
        assert(distinct_entries(t)) by {
            assert forall|a: int, b: int| 0 <= a < b < t.len() implies (#[trigger] t[a]).key != (
            #[trigger] t[b]).key by {
                assert(s[a + 1] == t[a] && s[b + 1] == t[b]);
            }
        }
        assert(s[0].key != s[i].key);
        assert(t[i - 1] == s[i]);
        lemma_entry_value_at(t, i - 1);
    }
}

/// A key that no entry has has no value.
pub proof fn lemma_entry_value_absent<V>(s: Seq<Entry<V>>, key: StackDumpKey)
    requires
        !has_entry(s, key),
    ensures
        entry_value(s, key) is None,
    decreases s.len(),
{
    if s.len() > 0 {
        let t = s.drop_first();
        assert(s[0].key != key);
        assert(!has_entry(t, key)) by {
            if has_entry(t, key) {
                let a = choose|a: int| 0 <= a < t.len() && (#[trigger] t[a]).key == key;
                assert(s[a + 1].key == key);
            }
        }
        lemma_entry_value_absent(t, key);
    }
}

/// A value written under a key is the value that the map holds under it.
pub proof fn lemma_with_entry_value<V>(s: Seq<Entry<V>>, key: StackDumpKey, value: V)
    ensures
        entry_value(with_entry(s, key, value), key) == Some(value),
{
    let rest = without_entry(s, key);
    let room = if rest.len() >= SIDE_MAP_CAPACITY {
        rest.drop_first()
    } else {
        rest
    };
    assert forall|i: int| 0 <= i < room.len() implies (#[trigger] room[i]).key != key by {
        let j = if rest.len() >= SIDE_MAP_CAPACITY {
            i + 1
        } else {
            i
        };
        assert(room[i] == rest[j]);
        crate::seqs::lemma_filter_member(s, |e: Entry<V>| e.key != key, j);
    }
    lemma_entry_value_pushed(room, key, value);
}

/// A value pushed under a key that no older entry has is the value under
/// the key.
pub proof fn lemma_entry_value_pushed<V>(s: Seq<Entry<V>>, key: StackDumpKey, value: V)
    requires
        forall|i: int| 0 <= i < s.len() ==> (#[trigger] s[i]).key != key,
    ensures
        entry_value(s.push(Entry { key, value }), key) == Some(value),
    decreases s.len(),
{
    let t = s.push(Entry { key, value });
    if s.len() > 0 {
        assert(t[0] == s[0]);
        assert(t.drop_first() =~= s.drop_first().push(Entry { key, value }));
        assert forall|i: int| 0 <= i < s.drop_first().len() implies (
        #[trigger] s.drop_first()[i]).key != key by {
            assert(s.drop_first()[i] == s[i + 1]);
        }
        lemma_entry_value_pushed(s.drop_first(), key, value);
    }
}

/// A bounded map with one value per key.
pub struct SideMap<V> {
    entries: Vec<Entry<V>>,
}

impl<V> View for SideMap<V> {
    type V = Seq<Entry<V>>;

    /// The entries, oldest first.
    closed spec fn view(&self) -> Seq<Entry<V>> {
        self.entries@
    }
}

impl<V> SideMap<V> {
    /// No key has two entries, and the map holds no more than its capacity.
    #[verifier::type_invariant]
    spec fn bounded(self) -> bool {
        &&& distinct_entries(self.entries@)
        &&& self.entries@.len() <= SIDE_MAP_CAPACITY
    }
}

impl<V: Copy> SideMap<V> {
    /// An empty map.
    pub fn new() -> (m: SideMap<V>)
        ensures
            m@ == Seq::<Entry<V>>::empty(),
    {
        SideMap { entries: Vec::new() }
    }

    /// How many entries the map holds.
    pub fn len(&self) -> (n: usize)
        ensures
            n == self@.len(),
            n <= SIDE_MAP_CAPACITY,
    {
        proof {
            use_type_invariant(self);
        }
        self.entries.len()
    }

    /// Where the entry under `key` stands.
    fn position(&self, key: &StackDumpKey) -> (r: Option<usize>)
        ensures
            match r {
                Some(i) => i < self@.len() && self@[i as int].key == *key,
                None => !has_entry(self@, *key) && forall|a: int|
                    0 <= a < self@.len() ==> (#[trigger] self@[a]).key != *key,
            },
    {
        let n: usize = self.entries.len();
        let mut i: usize = 0;
        while i < n
            invariant
                i <= n,
                n == self.entries@.len(),
                forall|a: int| 0 <= a < i ==> (#[trigger] self.entries@[a]).key != *key,
            decreases n - i,
        {
            let k: &StackDumpKey = &self.entries[i].key;
            if k.pid == key.pid && k.tid == key.tid && k.boottime == key.boottime {
                return Some(i);
            }
            i = i + 1;
        }
        None
    }

    /// The value under `key`, if there is one.
    pub fn get(&self, key: &StackDumpKey) -> (r: Option<V>)
        ensures
            r == entry_value(self@, *key),
            r is Some <==> has_entry(self@, *key),
    {
        proof {
            use_type_invariant(self);
        }
        match self.position(key) {
            Some(i) => {
                proof {
                    lemma_entry_value_at(self@, i as int);
                }
                Some(self.entries[i].value)
            },
            None => {
                proof {
                    lemma_entry_value_absent(self@, *key);
                }
                None
            },
        }
    }

    /// Removes the entry under `key` and says whether there was one.
    pub fn remove(&mut self, key: &StackDumpKey) -> (removed: bool)
        ensures
            final(self)@ == without_entry(old(self)@, *key),
            removed == has_entry(old(self)@, *key),
            !has_entry(final(self)@, *key),
            distinct_entries(final(self)@),
            final(self)@.len() <= old(self)@.len() <= SIDE_MAP_CAPACITY,
    {
        proof {
            use_type_invariant(&*self);
        }
        match self.position(key) {
            Some(i) => {
                proof {
                    lemma_without_entry_at(self@, i as int);
                }
                let mut entries: Vec<Entry<V>> = Vec::new();
                core::mem::swap(&mut entries, &mut self.entries);
                let _ = entries.remove(i);
                proof {
                    let s = old(self)@;
                    let r = entries@;
                    assert forall|a: int, b: int| 0 <= a < b < r.len() implies (
                    #[trigger] r[a]).key != (#[trigger] r[b]).key by {
                        let sa = if a < i { a } else { a + 1 };
                        let sb = if b < i { b } else { b + 1 };
                        assert(r[a] == s[sa] && r[b] == s[sb]);
                    }
                    if has_entry(r, *key) {
                        let a = choose|a: int| 0 <= a < r.len() && (#[trigger] r[a]).key == *key;
                        let sa = if a < i { a } else { a + 1 };
                        assert(r[a] == s[sa]);
                        if sa < i {
                            assert(s[sa].key != s[i as int].key);
                        } else {
                            assert(s[i as int].key != s[sa].key);
                        }
                    }
                }
                self.entries = entries;
                true
            },
            None => {
                proof {
                    lemma_without_entry_absent(self@, *key);
                }
                false
            },
        }
    }

    /// Writes `value` under `key`. An older entry under the key is replaced;
    /// a new key that finds the map full takes the place of the oldest entry.
    pub fn insert(&mut self, key: StackDumpKey, value: V)
        ensures
            final(self)@ == with_entry(old(self)@, key, value),
            entry_value(final(self)@, key) == Some(value),
            distinct_entries(final(self)@),
            final(self)@.len() <= SIDE_MAP_CAPACITY,
    {
        let _ = self.remove(&key);
        let mut entries: Vec<Entry<V>> = Vec::new();
        core::mem::swap(&mut entries, &mut self.entries);
        if entries.len() >= SIDE_MAP_CAPACITY {
            let ghost full = entries@;
            let _ = entries.remove(0);
            proof {
                let r = entries@;
                assert(r =~= full.drop_first());
                assert forall|a: int, b: int| 0 <= a < b < r.len() implies (
                #[trigger] r[a]).key != (#[trigger] r[b]).key by {
                    assert(r[a] == full[a + 1] && r[b] == full[b + 1]);
                }
                if has_entry(r, key) {
                    let a = choose|a: int| 0 <= a < r.len() && (#[trigger] r[a]).key == key;
                    assert(full[a + 1].key == key);
                }
            }
        }
        let ghost room = entries@;
        entries.push(Entry { key, value });
        proof {
            let r = entries@;
            assert forall|a: int, b: int| 0 <= a < b < r.len() implies (#[trigger] r[a]).key != (
            #[trigger] r[b]).key by {
                assert(r[a] == room[a]);
                if b < room.len() {
                    assert(r[b] == room[b]);
                }
            }
            lemma_entry_value_at(r, r.len() - 1);
        }
        self.entries = entries;
    }
}

} // verus!
