//! A small map kept as a list of entries with pairwise different keys.
//!
//! Its tables are short, and what matters about them is which value a
//! key has; the order of the entries carries no meaning. The view of a list
//! is therefore a `Map` from the views of its keys to the views of its values.
//!
//! The keys here are texts and pairs of texts. vstd specifies the hash
//! tables of the standard library for keys that obey its key model, which
//! it grants to the integer types and not to `String`; and it views such a
//! table as a map over the keys themselves, not over what they read. A
//! table of this crate has to be walked entry by entry and its contracts
//! speak of texts, so it is kept as this list, whose every step is proved.

use vstd::prelude::*;

verus! {

/// A key of a [`KeyedList`]: two keys are the same key when their views are
/// equal.
pub trait Key: View + Sized {
    /// Whether `self` and `other` are the same key.
    fn same_key(&self, other: &Self) -> (r: bool)
        ensures
            r == (self@ == other@),
    ;

    /// A second copy of this key.
    fn copy_key(&self) -> (r: Self)
        ensures
            r@ == self@,
    ;
}

impl Key for String {
    fn same_key(&self, other: &Self) -> (r: bool) {
        *self == *other
    }

    fn copy_key(&self) -> (r: Self) {
        self.clone()
    }
}

/// A list of entries, each a key with its value, in which no key occurs
/// twice.
#[derive(Debug)]
pub struct KeyedList<K, V> {
    keys: Vec<K>,
    values: Vec<V>,
}

impl<K: Key, V: View> View for KeyedList<K, V> {
    type V = Map<K::V, V::V>;

    /// The map from each key of the list to its value.
    open spec fn view(&self) -> Map<K::V, V::V> {
        Map::new(
            |k: K::V| self.key_views().contains(k),
            |k: K::V| self.value_views()[self.key_views().index_of(k)],
        )
    }
}

impl<K: Key, V: View> KeyedList<K, V> {
    /// The views of the keys, entry by entry.
    pub closed spec fn key_views(&self) -> Seq<K::V> {
        self.keys@.map_values(|k: K| k@)
    }

    /// The values, entry by entry.
    pub closed spec fn items(&self) -> Seq<V> {
        self.values@
    }

    /// The views of the values, entry by entry.
    pub closed spec fn value_views(&self) -> Seq<V::V> {
        self.values@.map_values(|v: V| v@)
    }

    /// A list that has the keys of `before` and, entry by entry, the values
    /// of `before` under `f`, is the map of `before` with `f` applied to each
    /// value.
    pub proof fn lemma_mapped(&self, before: &Self, f: spec_fn(V::V) -> V::V)
        requires
            before.wf(),
            self.key_views() == before.key_views(),
            self.value_views().len() == before.value_views().len(),
            forall|i: int|
                0 <= i < before.count() ==> #[trigger] self.value_views()[i] == f(
                    before.value_views()[i],
                ),
        ensures
            self.wf(),
            self@ == before@.map_values(f),
    {
        assert forall|k: K::V| self@.contains_key(k) implies #[trigger] self@[k]
            == before@.map_values(f)[k] by {
            self.lemma_key(k);
            before.lemma_key(k);
        }
        assert(self@ =~= before@.map_values(f));
    }

    /// The number of entries.
    pub open spec fn count(&self) -> nat {
        self.key_views().len()
    }

    /// Every entry has a key and a value, and no key occurs twice.
    pub open spec fn wf(&self) -> bool {
        &&& self.key_views().len() == self.value_views().len()
        &&& self.key_views().no_duplicates()
    }

    /// The entry at index `i` is the one that the map holds under its key.
    pub proof fn lemma_entry(&self, i: int)
        requires
            self.wf(),
            0 <= i < self.count(),
        ensures
            self@.contains_key(self.key_views()[i]),
            self@[self.key_views()[i]] == self.value_views()[i],
            self.key_views().index_of(self.key_views()[i]) == i,
    {
        let k = self.key_views()[i];
        assert(self.key_views().contains(k));
        let j = self.key_views().index_of(k);
        assert(self.key_views()[j] == k);
    }

    /// A key of the map is the key of some entry.
    pub proof fn lemma_key(&self, k: K::V)
        requires
            self.wf(),
            self@.contains_key(k),
        ensures
            0 <= self.key_views().index_of(k) < self.count(),
            self.key_views()[self.key_views().index_of(k)] == k,
            self@[k] == self.value_views()[self.key_views().index_of(k)],
    {
        assert(self.key_views().contains(k));
    }

    /// The views of the values are the views of the items, entry by entry.
    pub proof fn lemma_items(&self)
        ensures
            self.items().len() == self.value_views().len(),
            forall|i: int|
                0 <= i < self.items().len() ==> (#[trigger] self.items()[i])@
                    == self.value_views()[i],
    {
    }

    /// The empty list.
    pub fn new() -> (r: Self)
        ensures
            r.wf(),
            r@ == Map::<K::V, V::V>::empty(),
            r.count() == 0,
            r.items().len() == 0,
    {
        let r = KeyedList { keys: Vec::new(), values: Vec::new() };
        assert(r.key_views() =~= Seq::empty());
        assert(r.value_views() =~= Seq::empty());
        assert(r@ =~= Map::<K::V, V::V>::empty());
        r
    }

    /// The number of entries.
    pub fn len(&self) -> (r: usize)
        requires
            self.wf(),
        ensures
            r == self.count(),
            r == self@.len(),
            self@.dom().finite(),
    {
        proof {
            self.lemma_dom();
        }
        self.keys.len()
    }

    /// The keys of the map are the keys of the entries: as many as there are
    /// entries.
    pub proof fn lemma_dom(&self)
        requires
            self.wf(),
        ensures
            self@.dom() == self.key_views().to_set(),
            self@.dom().finite(),
            self@.len() == self.count(),
    {
        assert(self@.dom() =~= self.key_views().to_set());
        self.key_views().unique_seq_to_set();
    }

    /// Whether the list is empty.
    pub fn is_empty(&self) -> (r: bool)
        requires
            self.wf(),
        ensures
            r == (self.count() == 0),
            r == (self@ == Map::<K::V, V::V>::empty()),
    {
        proof {
            if self.count() == 0 {
                assert(self@ =~= Map::<K::V, V::V>::empty());
            } else {
                self.lemma_entry(0);
            }
        }
        self.keys.len() == 0
    }

    /// The key of the entry at index `i`.
    pub fn key(&self, i: usize) -> (r: &K)
        requires
            self.wf(),
            i < self.count(),
        ensures
            r@ == self.key_views()[i as int],
            self@.contains_key(r@),
    {
        proof {
            self.lemma_entry(i as int);
        }
        &self.keys[i]
    }

    /// The value of the entry at index `i`.
    pub fn value(&self, i: usize) -> (r: &V)
        requires
            self.wf(),
            i < self.count(),
        ensures
            *r == self.items()[i as int],
            r@ == self.value_views()[i as int],
            self@[self.key_views()[i as int]] == r@,
    {
        proof {
            self.lemma_entry(i as int);
        }
        &self.values[i]
    }

    /// The index of the entry with key `key`.
    pub fn position(&self, key: &K) -> (r: Option<usize>)
        requires
            self.wf(),
        ensures
            match r {
                Some(i) => i < self.count() && self.key_views()[i as int] == key@
                    && self@.contains_key(key@) && self@[key@] == self.value_views()[i as int],
                None => !self@.contains_key(key@),
            },
    {
        let mut i: usize = 0;
        while i < self.keys.len()
            invariant
                i <= self.keys.len(),
                self.wf(),
                forall|j: int| 0 <= j < i ==> self.key_views()[j] != key@,
            decreases self.keys.len() - i,
        {
            if self.keys[i].same_key(key) {
                proof {
                    self.lemma_entry(i as int);
                }
                return Some(i);
            }
            i = i + 1;
        }
        None
    }

    /// Whether the list has an entry with key `key`.
    pub fn contains_key(&self, key: &K) -> (r: bool)
        requires
            self.wf(),
        ensures
            r == self@.contains_key(key@),
    {
        self.position(key).is_some()
    }

    /// The value under `key`.
    pub fn get(&self, key: &K) -> (r: Option<&V>)
        requires
            self.wf(),
        ensures
            match r {
                Some(v) => self@.contains_key(key@) && self@[key@] == v@ && self.items().contains(
                    *v,
                ),
                None => !self@.contains_key(key@),
            },
    {
        match self.position(key) {
            Some(i) => Some(&self.values[i]),
            None => None,
        }
    }

    /// Puts `value` in place of the value of the entry at index `i`.
    pub fn set(&mut self, i: usize, value: V)
        requires
            old(self).wf(),
            i < old(self).count(),
        ensures
            final(self).wf(),
            final(self).key_views() == old(self).key_views(),
            final(self).value_views() == old(self).value_views().update(i as int, value@),
            final(self).items() == old(self).items().update(i as int, value),
            final(self)@ == old(self)@.insert(old(self).key_views()[i as int], value@),
    {
        self.values[i] = value;
        proof {
            assert(self.key_views() =~= old(self).key_views());
            assert(self.value_views() =~= old(self).value_views().update(i as int, value@));
            let k = old(self).key_views()[i as int];
            old(self).lemma_entry(i as int);
            assert forall|q: K::V| self@.contains_key(q) implies #[trigger] self@[q] == old(
                self,
            )@.insert(k, value@)[q] by {
                old(self).lemma_key(q);
            }
            assert(self@ =~= old(self)@.insert(k, value@));
        }
    }

    /// Adds an entry for a key that the list does not hold yet.
    pub fn push(&mut self, key: K, value: V)
        requires
            old(self).wf(),
            !old(self)@.contains_key(key@),
        ensures
            final(self).wf(),
            final(self).key_views() == old(self).key_views().push(key@),
            final(self).value_views() == old(self).value_views().push(value@),
            final(self).items() == old(self).items().push(value),
            final(self)@ == old(self)@.insert(key@, value@),
    {
        self.keys.push(key);
        self.values.push(value);
        proof {
            assert(self.key_views() =~= old(self).key_views().push(key@));
            assert(self.value_views() =~= old(self).value_views().push(value@));
            let n = old(self).count() as int;
            assert forall|a: int, b: int|
                0 <= a < self.count() && 0 <= b < self.count() && a != b implies self.key_views()[a]
                != self.key_views()[b] by {
                if a == n {
                    assert(old(self).key_views()[b] == self.key_views()[b]);
                    assert(old(self).key_views().contains(self.key_views()[b]));
                } else if b == n {
                    assert(old(self).key_views()[a] == self.key_views()[a]);
                    assert(old(self).key_views().contains(self.key_views()[a]));
                }
            }
            self.lemma_entry(n);
            assert forall|q: K::V| self@.contains_key(q) <==> old(self)@.insert(
                key@,
                value@,
            ).contains_key(q) by {
                if self@.contains_key(q) {
                    self.lemma_key(q);
                    let j = self.key_views().index_of(q);
                    if j < n {
                        assert(old(self).key_views()[j] == q);
                    }
                }
                if old(self)@.contains_key(q) {
                    old(self).lemma_key(q);
                    let j = old(self).key_views().index_of(q);
                    assert(self.key_views()[j] == q);
                }
            }
            assert forall|q: K::V| self@.contains_key(q) implies #[trigger] self@[q] == old(
                self,
            )@.insert(key@, value@)[q] by {
                self.lemma_key(q);
                let j = self.key_views().index_of(q);
                if j < n {
                    assert(old(self).key_views()[j] == q);
                    old(self).lemma_entry(j);
                }
            }
            assert(self@ =~= old(self)@.insert(key@, value@));
        }
    }

    /// Puts `value` under `key`, in place of the value that `key` had, if it
    /// had one.
    pub fn insert(&mut self, key: K, value: V)
        requires
            old(self).wf(),
        ensures
            final(self).wf(),
            final(self)@ == old(self)@.insert(key@, value@),
            forall|x: V| #[trigger]
                final(self).items().contains(x) ==> x == value || old(self).items().contains(x),
    {
        match self.position(&key) {
            Some(i) => {
                self.set(i, value);
                proof {
                    assert forall|x: V| #[trigger] self.items().contains(x) implies x == value
                        || old(self).items().contains(x) by {
                        let j = choose|j: int| 0 <= j < self.items().len() && self.items()[j] == x;
                        if j != i {
                            assert(old(self).items()[j] == x);
                        }
                    }
                }
            },
            None => {
                self.push(key, value);
                proof {
                    assert forall|x: V| #[trigger] self.items().contains(x) implies x == value
                        || old(self).items().contains(x) by {
                        let j = choose|j: int| 0 <= j < self.items().len() && self.items()[j] == x;
                        if j < old(self).items().len() {
                            assert(old(self).items()[j] == x);
                        }
                    }
                }
            },
        }
    }

    /// Takes the entry at index `i` out of the list.
    pub fn remove_at(&mut self, i: usize) -> (r: V)
        requires
            old(self).wf(),
            i < old(self).count(),
        ensures
            final(self).wf(),
            r == old(self).items()[i as int],
            r@ == old(self).value_views()[i as int],
            final(self).key_views() == old(self).key_views().remove(i as int),
            final(self).value_views() == old(self).value_views().remove(i as int),
            final(self).items() == old(self).items().remove(i as int),
            final(self)@ == old(self)@.remove(old(self).key_views()[i as int]),
    {
        let _ = self.keys.remove(i);
        let r = self.values.remove(i);
        proof {
            let ok = old(self).key_views();
            let k = ok[i as int];
            assert(self.key_views() =~= ok.remove(i as int));
            assert(self.value_views() =~= old(self).value_views().remove(i as int));
            assert forall|a: int, b: int|
                0 <= a < self.count() && 0 <= b < self.count() && a != b implies self.key_views()[a]
                != self.key_views()[b] by {
                let a0 = if a < i { a } else { a + 1 };
                let b0 = if b < i { b } else { b + 1 };
                assert(self.key_views()[a] == ok[a0]);
                assert(self.key_views()[b] == ok[b0]);
            }
            assert forall|q: K::V| self@.contains_key(q) <==> old(self)@.remove(k).contains_key(
                q,
            ) by {
                if self@.contains_key(q) {
                    self.lemma_key(q);
                    let j = self.key_views().index_of(q);
                    let j0 = if j < i { j } else { j + 1 };
                    assert(ok[j0] == q);
                    assert(ok.contains(q));
                }
                if old(self)@.remove(k).contains_key(q) {
                    old(self).lemma_key(q);
                    let j0 = ok.index_of(q);
                    let j = if j0 < i { j0 } else { j0 - 1 };
                    assert(self.key_views()[j] == q);
                }
            }
            assert forall|q: K::V| self@.contains_key(q) implies #[trigger] self@[q] == old(
                self,
            )@.remove(k)[q] by {
                self.lemma_key(q);
                let j = self.key_views().index_of(q);
                let j0 = if j < i { j } else { j + 1 };
                assert(ok[j0] == q);
                old(self).lemma_entry(j0);
            }
            assert(self@ =~= old(self)@.remove(k));
        }
        r
    }

    /// Takes the entry with key `key` out of the list, if there is one.
    pub fn remove(&mut self, key: &K) -> (r: Option<V>)
        requires
            old(self).wf(),
        ensures
            final(self).wf(),
            final(self)@ == old(self)@.remove(key@),
            match r {
                Some(v) => old(self)@.contains_key(key@) && old(self)@[key@] == v@ && old(
                    self,
                ).items().contains(v),
                None => !old(self)@.contains_key(key@),
            },
            forall|x: V| #[trigger] final(self).items().contains(x) ==> old(self).items().contains(x),
    {
        match self.position(key) {
            Some(i) => {
                let v = self.remove_at(i);
                proof {
                    assert(old(self).items()[i as int] == v);
                    assert forall|x: V| #[trigger] self.items().contains(x) implies old(
                        self,
                    ).items().contains(x) by {
                        let j = choose|j: int| 0 <= j < self.items().len() && self.items()[j] == x;
                        let j0 = if j < i { j } else { j + 1 };
                        assert(old(self).items()[j0] == x);
                    }
                }
                Some(v)
            },
            None => {
                assert(self@ =~= old(self)@.remove(key@));
                None
            },
        }
    }
}

} // verus!
