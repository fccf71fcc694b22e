//! A small insertion-ordered map, for the tables of the game world whose keys
//! are coordinates, slots, or identifiers.

use vstd::prelude::*;
use crate::util::Coord;

verus! {

/// A key that can be compared in compiled code, with the meaning of `==` in contracts.
pub trait Key: Sized {
    fn same_key(&self, other: &Self) -> (res: bool)
        ensures
            res == (*self == *other),
    ;

    fn copy_key(&self) -> (res: Self)
        ensures
            res == *self,
    ;
}

impl Key for Coord {
    fn same_key(&self, other: &Self) -> (res: bool) {
        self.0 == other.0 && self.1 == other.1
    }

    fn copy_key(&self) -> (res: Self) {
        (self.0, self.1)
    }
}

impl Key for usize {
    fn same_key(&self, other: &Self) -> (res: bool) {
        *self == *other
    }

    fn copy_key(&self) -> (res: Self) {
        *self
    }
}

impl Key for u8 {
    fn same_key(&self, other: &Self) -> (res: bool) {
        *self == *other
    }

    fn copy_key(&self) -> (res: Self) {
        *self
    }
}

impl Key for char {
    fn same_key(&self, other: &Self) -> (res: bool) {
        *self == *other
    }

    fn copy_key(&self) -> (res: Self) {
        *self
    }
}

/// The keys of a sequence of entries, in order.
pub open spec fn keys_of<K, V>(entries: Seq<(K, V)>) -> Seq<K> {
    Seq::new(entries.len(), |i: int| entries[i].0)
}

/// A map that keeps its entries in the order in which their keys first came.
/// No key occurs twice.
#[derive(Debug)]
pub struct Table<K: Key, V> {
    pub(crate) entries: Vec<(K, V)>,
}

impl<K: Key, V> View for Table<K, V> {
    type V = Map<K, V>;

    closed spec fn view(&self) -> Map<K, V> {
        Map::new(
            |k: K| keys_of(self.entries@).contains(k),
            |k: K| value_of(self.entries@, k),
        )
    }
}

impl<K: Key, V> Table<K, V> {
    /// No key occurs twice.
    #[verifier::type_invariant]
    pub closed spec fn wf(&self) -> bool {
        keys_of(self.entries@).no_duplicates()
    }

    /// The keys in the order in which they were first inserted.
    pub closed spec fn keys(&self) -> Seq<K> {
        keys_of(self.entries@)
    }

    /// The keys are exactly the domain of the view, and the value at the
    /// position of a key is the key's value.
    pub proof fn lemma_keys(&self)
        requires
            self.wf(),
        ensures
            self.keys().no_duplicates(),
            forall|k: K| self.keys().contains(k) <==> #[trigger] self@.contains_key(k),
            forall|i: int| 0 <= i < self.keys().len() ==> self@.contains_key(#[trigger] self.keys()[i]),
    {
    }

    /// Every key of the view stands at some position of the order.
    pub proof fn lemma_keys_index(&self)
        ensures
            forall|k: K| #[trigger]
                self@.contains_key(k) ==> exists|i: int|
                    0 <= i < self.keys().len() && self.keys()[i] == k,
    {
        assert forall|k: K| #[trigger] self@.contains_key(k) implies exists|i: int|
            0 <= i < self.keys().len() && self.keys()[i] == k by {
            let i = self.keys().index_of(k);
            assert(0 <= i < self.keys().len() && self.keys()[i] == k);
        }
    }

    /// An empty table.
    pub fn new() -> (res: Self)
        ensures
            res@ == Map::<K, V>::empty(),
            res.keys() == Seq::<K>::empty(),
    {
        let res = Table { entries: Vec::new() };
        assert(res@ =~= Map::<K, V>::empty());
        assert(res.keys() =~= Seq::<K>::empty());
        res
    }

    /// The number of entries.
    pub fn len(&self) -> (res: usize)
        ensures
            res == self.keys().len(),
    {
        self.entries.len()
    }

    /// The position of `key` among the entries, if it is there.
    fn position(&self, key: &K) -> (res: Option<usize>)
        ensures
            match res {
                Some(i) => i < self.entries@.len() && self.entries@[i as int].0 == *key
                    && keys_of(self.entries@).index_of(*key) == i && self@.contains_key(*key)
                    && self@[*key] == self.entries@[i as int].1,
                None => !keys_of(self.entries@).contains(*key) && !self@.contains_key(*key),
            },
    {
        proof {
            use_type_invariant(self);
        }
        let mut i: usize = 0;
        while i < self.entries.len()
            invariant
                i <= self.entries@.len(),
                keys_of(self.entries@).no_duplicates(),
                forall|j: int| 0 <= j < i ==> self.entries@[j].0 != *key,
            decreases self.entries@.len() - i,
        {
            if self.entries[i].0.same_key(key) {
                proof {
                    lemma_index_of(keys_of(self.entries@), i as int);
                }
                return Some(i);
            }
            i += 1;
        }
        proof {
            let ks = keys_of(self.entries@);
            assert forall|j: int| 0 <= j < ks.len() implies ks[j] != *key by {
                assert(ks[j] == self.entries@[j].0);
            }
        }
        None
    }

    /// Whether `key` has an entry.
    pub fn contains_key(&self, key: &K) -> (res: bool)
        ensures
            res == self@.contains_key(*key),
    {
        self.position(key).is_some()
    }

    /// The value of `key`, if it has an entry.
    pub fn get(&self, key: &K) -> (res: Option<&V>)
        ensures
            match res {
                Some(v) => self@.contains_key(*key) && *v == self@[*key],
                None => !self@.contains_key(*key),
            },
    {
        match self.position(key) {
            Some(i) => Some(&self.entries[i].1),
            None => None,
        }
    }

    /// The key at position `i` of the insertion order.
    pub fn key_at(&self, i: usize) -> (res: K)
        requires
            i < self.keys().len(),
        ensures
            res == self.keys()[i as int],
            self@.contains_key(res),
    {
        proof {
            use_type_invariant(self);
            lemma_index_of(keys_of(self.entries@), i as int);
        }
        self.entries[i].0.copy_key()
    }

    /// The value at position `i` of the insertion order.
    pub fn value_at(&self, i: usize) -> (res: &V)
        requires
            i < self.keys().len(),
        ensures
            self@.contains_key(self.keys()[i as int]),
            *res == self@[self.keys()[i as int]],
    {
        proof {
            use_type_invariant(self);
            lemma_index_of(keys_of(self.entries@), i as int);
        }
        &self.entries[i].1
    }

    /// Gives `key` the value `value`, and hands back the value it had, if
    /// any. A key that is already there keeps its place in the order; a new
    /// key goes to the end.
    pub fn insert(&mut self, key: K, value: V) -> (res: Option<V>)
        ensures
            final(self)@ == old(self)@.insert(key, value),
            final(self).keys() == if old(self)@.contains_key(key) {
                old(self).keys()
            } else {
                old(self).keys().push(key)
            },
            res == if old(self)@.contains_key(key) {
                Some(old(self)@[key])
            } else {
                None::<V>
            },
    {
        proof {
            use_type_invariant(&*self);
        }
        let ghost before = self.entries@;
        let pos = self.position(&key);
        let mut entries: Vec<(K, V)> = Vec::new();
        std::mem::swap(&mut self.entries, &mut entries);
        let res = match pos {
            Some(i) => {
                let mut entry: (K, V) = (key, value);
                entries.set_and_swap(i, &mut entry);
                proof {
                    assert(keys_of(entries@) =~= keys_of(before));
                }
                Some(entry.1)
            },
            None => {
                entries.push((key, value));
                proof {
                    assert(keys_of(entries@) =~= keys_of(before).push(key));
                }
                None
            },
        };
        proof {
            lemma_entries_insert(before, entries@, key, value);
        }
        self.entries = entries;
        proof {
            assert(self@ =~= old(self)@.insert(key, value));
        }
        res
    }

    /// Takes the entry of `key` out, and gives its value back if there was one.
    /// The other keys keep their order.
    pub fn remove(&mut self, key: &K) -> (res: Option<V>)
        ensures
            final(self)@ == old(self)@.remove(*key),
            res == if old(self)@.contains_key(*key) {
                Some(old(self)@[*key])
            } else {
                None::<V>
            },
            final(self).keys() == old(self).keys().filter(|k: K| k != *key),
    {
        proof {
            use_type_invariant(&*self);
        }
        let ghost before = self.entries@;
        let ghost kb = keys_of(before);
        match self.position(key) {
            Some(i) => {
                let mut entries: Vec<(K, V)> = Vec::new();
                std::mem::swap(&mut self.entries, &mut entries);
                let removed = entries.remove(i);
                proof {
                    assert(keys_of(entries@) =~= kb.remove(i as int));
                    lemma_filter_removes_one(kb, i as int);
                    lemma_entries_remove(before, entries@, i as int);
                }
                self.entries = entries;
                proof {
                    assert(self@ =~= old(self)@.remove(*key));
                }
                Some(removed.1)
            },
            None => {
                proof {
                    lemma_filter_keeps_all(kb, *key);
                    assert(self@ =~= old(self)@.remove(*key));
                }
                None
            },
        }
    }

    /// The keys, in insertion order.
    pub fn keys_vec(&self) -> (res: Vec<K>)
        ensures
            res@ == self.keys(),
    {
        let mut out: Vec<K> = Vec::new();
        let mut i: usize = 0;
        while i < self.entries.len()
            invariant
                i <= self.entries@.len(),
                out@ == keys_of(self.entries@).subrange(0, i as int),
            decreases self.entries@.len() - i,
        {
            out.push(self.entries[i].0.copy_key());
            proof {
                assert(out@ =~= keys_of(self.entries@).subrange(0, i + 1));
            }
            i += 1;
        }
        proof {
            assert(out@ =~= keys_of(self.entries@));
        }
        out
    }
}

/// In a sequence without duplicates, the index of the element at `i` is `i`.
proof fn lemma_index_of<K>(s: Seq<K>, i: int)
    requires
        s.no_duplicates(),
        0 <= i < s.len(),
    ensures
        s.contains(s[i]),
        s.index_of(s[i]) == i,
{
    let j = s.index_of(s[i]);
    assert(0 <= j < s.len() && s[j] == s[i]);
}

/// The value that a list of entries with distinct keys gives to a key.
spec fn value_of<K, V>(entries: Seq<(K, V)>, k: K) -> V {
    entries[keys_of(entries).index_of(k)].1
}

/// What replacing or appending an entry does to the keys and their values.
proof fn lemma_entries_insert<K, V>(before: Seq<(K, V)>, after: Seq<(K, V)>, key: K, value: V)
    requires
        keys_of(before).no_duplicates(),
        keys_of(before).contains(key) ==> after == before.update(
            keys_of(before).index_of(key),
            (key, value),
        ),
        !keys_of(before).contains(key) ==> after == before.push((key, value)),
    ensures
        keys_of(after).no_duplicates(),
        forall|k: K|
            keys_of(after).contains(k) <==> (keys_of(before).contains(k) || k == key),
        forall|k: K|
            keys_of(after).contains(k) ==> #[trigger] value_of(after, k) == (if k == key {
                value
            } else {
                value_of(before, k)
            }),
{
    let kb = keys_of(before);
    let ka = keys_of(after);
    if kb.contains(key) {
        assert(ka =~= kb);
        assert forall|k: K| ka.contains(k) implies #[trigger] value_of(after, k) == (if k == key {
            value
        } else {
            value_of(before, k)
        }) by {
            let j = ka.index_of(k);
            assert(ka[j] == k);
        }
    } else {
        assert(ka =~= kb.push(key));
        assert forall|a: int, b: int| 0 <= a < ka.len() && 0 <= b < ka.len() && a != b implies ka[a]
            != ka[b] by {
            if a < kb.len() {
                assert(kb[a] == ka[a]);
            }
            if b < kb.len() {
                assert(kb[b] == ka[b]);
            }
        }
        assert forall|k: K| ka.contains(k) <==> (kb.contains(k) || k == key) by {
            if kb.contains(k) {
                let j = kb.index_of(k);
                assert(ka[j] == k);
            }
            if k == key {
                assert(ka[kb.len() as int] == key);
            }
            if ka.contains(k) {
                let j = ka.index_of(k);
                assert(ka[j] == k);
                if j < kb.len() {
                    assert(kb[j] == k);
                }
            }
        }
        assert forall|k: K| ka.contains(k) implies #[trigger] value_of(after, k) == (if k == key {
            value
        } else {
            value_of(before, k)
        }) by {
            let j = ka.index_of(k);
            assert(ka[j] == k);
            if k != key {
                assert(kb[j] == k);
                lemma_index_of(kb, j);
            } else {
                assert(ka[kb.len() as int] == key);
            }
        }
    }
}

/// What dropping the entry at `i` does to the keys and their values.
proof fn lemma_entries_remove<K, V>(before: Seq<(K, V)>, after: Seq<(K, V)>, i: int)
    requires
        keys_of(before).no_duplicates(),
        0 <= i < before.len(),
        after == before.remove(i),
    ensures
        keys_of(after).no_duplicates(),
        forall|k: K|
            keys_of(after).contains(k) <==> (keys_of(before).contains(k) && k != before[i].0),
        forall|k: K|
            keys_of(after).contains(k) ==> #[trigger] value_of(after, k) == value_of(before, k),
{
    let kb = keys_of(before);
    let ka = keys_of(after);
    assert(ka =~= kb.remove(i));
    assert forall|a: int, b: int| 0 <= a < ka.len() && 0 <= b < ka.len() && a != b implies ka[a]
        != ka[b] by {
        let a2 = if a < i { a } else { a + 1 };
        let b2 = if b < i { b } else { b + 1 };
        assert(kb[a2] == ka[a]);
        assert(kb[b2] == ka[b]);
    }
    assert forall|k: K| ka.contains(k) <==> (kb.contains(k) && k != before[i].0) by {
        if kb.contains(k) && k != before[i].0 {
            let j = kb.index_of(k);
            assert(kb[j] == k);
            if j < i {
                assert(ka[j] == k);
            } else {
                assert(ka[j - 1] == k);
            }
        }
        if ka.contains(k) {
            let j = ka.index_of(k);
            assert(ka[j] == k);
            let j2 = if j < i { j } else { j + 1 };
            assert(kb[j2] == k);
            assert(kb[i] == before[i].0);
        }
    }
    assert forall|k: K| ka.contains(k) implies #[trigger] value_of(after, k) == value_of(
        before,
        k,
    ) by {
        let j = ka.index_of(k);
        assert(ka[j] == k);
        let j2 = if j < i { j } else { j + 1 };
        assert(kb[j2] == k);
        lemma_index_of(kb, j2);
    }
}

/// Filtering a duplicate-free sequence by "is not the element at `i`" removes exactly position `i`.
proof fn lemma_filter_removes_one<K>(s: Seq<K>, i: int)
    requires
        s.no_duplicates(),
        0 <= i < s.len(),
    ensures
        s.filter(|k: K| k != s[i]) == s.remove(i),
    decreases s.len(),
{
    reveal(Seq::filter);
    let x = s[i];
    let last = s.len() - 1;
    let front = s.drop_last();
    if i == last {
        lemma_filter_keeps_all(front, x);
        assert(s.remove(i) =~= front);
    } else {
        lemma_filter_removes_one(front, i);
        assert(front[i] == x);
        assert(s.remove(i) =~= front.remove(i).push(s[last]));
    }
}

/// Filtering by "is not `x`" changes nothing where `x` does not occur.
proof fn lemma_filter_keeps_all<K>(s: Seq<K>, x: K)
    requires
        !s.contains(x),
    ensures
        s.filter(|k: K| k != x) == s,
    decreases s.len(),
{
    reveal(Seq::filter);
    if s.len() > 0 {
        let front = s.drop_last();
        assert forall|j: int| 0 <= j < front.len() implies front[j] != x by {
            assert(s[j] == front[j]);
        }
        lemma_filter_keeps_all(front, x);
        assert(s[s.len() - 1] != x);
        assert(s =~= front.push(s[s.len() - 1]));
    }
}

} // verus!
