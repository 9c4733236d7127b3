//! A map from texts to values that keeps its keys in insertion order.

use vstd::prelude::*;

use crate::text;

verus! {

/// Values under distinct text keys.
#[derive(Debug)]
pub struct Table<V> {
    entries: Vec<(String, V)>,
}

/// The keys of entries.
spec fn keys_of<V>(entries: Seq<(String, V)>) -> Seq<Seq<char>> {
    entries.map_values(|e: (String, V)| e.0@)
}

spec fn is_first(keys: Seq<Seq<char>>, key: Seq<char>, i: int) -> bool {
    &&& 0 <= i < keys.len()
    &&& keys[i] == key
    &&& forall|j: int| 0 <= j < i ==> #[trigger] keys[j] != key
}

proof fn lemma_first(keys: Seq<Seq<char>>, key: Seq<char>, i: int)
    requires
        is_first(keys, key, i),
    ensures
        keys.contains(key),
        (choose|j: int| is_first(keys, key, j)) == i,
{
    let c = choose|j: int| is_first(keys, key, j);
    assert(is_first(keys, key, c));
    assert(keys[c] == keys[i]);
}

impl<V: Clone> Clone for Table<V> {
    /// A table with the same keys, and clones of the values under them.
    fn clone(&self) -> (res: Table<V>)
        ensures
            res.keys() == self.keys(),
            forall|k: Seq<char>| #[trigger]
                res@.contains_key(k) ==> cloned(self@[k], res@[k]),
    {
        proof {
            use_type_invariant(self);
        }
        let mut entries: Vec<(String, V)> = Vec::new();
        let mut i: usize = 0;
        assert(keys_of(entries@) =~= self.keys().take(0));
        while i < self.entries.len()
            invariant
                i <= self.entries@.len(),
                keys_of(entries@) == self.keys().take(i as int),
                entries@.len() == i,
                forall|j: int|
                    0 <= j < i ==> cloned(self.entries@[j].1, (#[trigger] entries@[j]).1),
            decreases self.entries@.len() - i,
        {
            let ghost before = keys_of(entries@);
            entries.push((self.entries[i].0.clone(), self.entries[i].1.clone()));
            assert(keys_of(entries@) =~= before.push(self.keys()[i as int]));
            assert(keys_of(entries@) =~= self.keys().take(i as int + 1));
            i += 1;
        }
        assert(self.keys().take(i as int) =~= self.keys());
        let res = Table { entries };
        proof {
            assert forall|k: Seq<char>| #[trigger] res@.contains_key(k) implies cloned(
                self@[k],
                res@[k],
            ) by {
                res.keys().index_of_first_ensures(k);
                let j = res.keys().index_of_first(k).unwrap();
                assert(is_first(res.keys(), k, j));
                lemma_first(res.keys(), k, j);
                assert(cloned(self.entries@[j].1, res.entries@[j].1));
            }
        }
        res
    }
}

impl<V> View for Table<V> {
    type V = Map<Seq<char>, V>;

    closed spec fn view(&self) -> Map<Seq<char>, V> {
        Map::new(
            |k: Seq<char>| self.keys().contains(k),
            |k: Seq<char>| self.entries@[choose|i: int| is_first(self.keys(), k, i)].1,
        )
    }
}

impl<V> Table<V> {
    /// No key occurs twice.
    #[verifier::type_invariant]
    spec fn keys_are_distinct(self) -> bool {
        self.keys().no_duplicates()
    }

    /// The keys, in the order in which they were first inserted.
    pub closed spec fn keys(self) -> Seq<Seq<char>> {
        keys_of(self.entries@)
    }

    /// The keys in the list are the keys of the map.
    pub proof fn keys_are_domain(self)
        ensures
            forall|k: Seq<char>| self@.contains_key(k) <==> #[trigger] self.keys().contains(k),
    {
    }

    pub fn new() -> (res: Table<V>)
        ensures
            res@ == Map::<Seq<char>, V>::empty(),
            res.keys() == Seq::<Seq<char>>::empty(),
    {
        let res = Table { entries: Vec::new() };
        assert(res@ =~= Map::<Seq<char>, V>::empty());
        assert(res.keys() =~= Seq::<Seq<char>>::empty());
        res
    }

    /// The number of entries. No key occurs twice.
    pub fn len(&self) -> (res: usize)
        ensures
            res == self.keys().len(),
            self.keys().no_duplicates(),
    {
        proof {
            use_type_invariant(self);
        }
        self.entries.len()
    }

    /// The key of the `i`th entry.
    pub fn key_at(&self, i: usize) -> (res: &str)
        requires
            i < self.keys().len(),
        ensures
            res@ == self.keys()[i as int],
    {
        self.entries[i].0.as_str()
    }

    fn find(&self, key: &str) -> (res: Option<usize>)
        ensures
            match res {
                Some(i) => is_first(self.keys(), key@, i as int),
                None => !self.keys().contains(key@),
            },
    {
        let mut i: usize = 0;
        while i < self.entries.len()
            invariant
                i <= self.entries@.len(),
                forall|j: int| 0 <= j < i ==> #[trigger] self.keys()[j] != key@,
            decreases self.entries@.len() - i,
        {
            if text::same_text(self.entries[i].0.as_str(), key) {
                assert(self.keys()[i as int] == key@);
                return Some(i);
            }
            i += 1;
        }
        None
    }

    /// The value under `key`, if there is one.
    pub fn get(&self, key: &str) -> (res: Option<&V>)
        ensures
            match res {
                Some(v) => self@.contains_key(key@) && *v == self@[key@],
                None => !self@.contains_key(key@),
            },
    {
        match self.find(key) {
            Some(i) => {
                proof {
                    lemma_first(self.keys(), key@, i as int);
                }
                Some(&self.entries[i].1)
            },
            None => None,
        }
    }

    pub fn contains_key(&self, key: &str) -> (res: bool)
        ensures
            res == self@.contains_key(key@),
    {
        match self.find(key) {
            Some(i) => {
                proof {
                    lemma_first(self.keys(), key@, i as int);
                }
                true
            },
            None => false,
        }
    }

    /// The entries themselves. No key occurs twice.
    pub fn into_entries(self) -> (res: Vec<(String, V)>)
        ensures
            self.keys().no_duplicates(),
            res@.len() == self.keys().len(),
            forall|i: int| 0 <= i < res@.len() ==> (#[trigger] res@[i]).0@ == self.keys()[i],
            forall|i: int|
                0 <= i < res@.len() ==> (#[trigger] res@[i]).1 == self@[self.keys()[i]],
    {
        proof {
            use_type_invariant(&self);
            assert forall|i: int| 0 <= i < self.entries@.len() implies (
            #[trigger] self.entries@[i]).1 == self@[self.keys()[i]] by {
                let k = self.keys()[i];
                assert(is_first(self.keys(), k, i));
                lemma_first(self.keys(), k, i);
            }
        }
        self.entries
    }

    /// Puts `value` under `key`, replacing what was there.
    pub fn insert(&mut self, key: String, value: V)
        ensures
            final(self)@ == old(self)@.insert(key@, value),
            final(self).keys() == (if old(self)@.contains_key(key@) {
                old(self).keys()
            } else {
                old(self).keys().push(key@)
            }),
            final(self).keys().no_duplicates(),
    {
        proof {
            use_type_invariant(&*self);
        }
        let ghost was = *self;
        let ghost name = key@;
        let found: Option<usize> = self.find(key.as_str());
        let mut entries: Vec<(String, V)> = Vec::new();
        core::mem::swap(&mut self.entries, &mut entries);
        let at: usize = match found {
            Some(i) => {
                entries.set(i, (key, value));
                i
            },
            None => {
                let i: usize = entries.len();
                entries.push((key, value));
                i
            },
        };
        assert(keys_of(entries@) =~= if found is Some {
            was.keys()
        } else {
            was.keys().push(name)
        });
        *self = Table { entries };
        proof {
            assert(is_first(self.keys(), name, at as int));
            lemma_first(self.keys(), name, at as int);
            let next = was@.insert(name, value);
            assert forall|k: Seq<char>| #[trigger]
                self@.dom().contains(k) <==> next.dom().contains(k) by {
                if was.keys().contains(k) {
                    assert(self.keys()[was.keys().index_of(k)] == k);
                } else if self.keys().contains(k) && k != name {
                    assert(was.keys()[self.keys().index_of(k)] == k);
                }
            }
            assert forall|k: Seq<char>| #[trigger] self@.dom().contains(k) implies self@[k]
                == next[k] by {
                if k != name {
                    was.keys().index_of_first_ensures(k);
                    assert(was.keys().contains(k));
                    let j = was.keys().index_of_first(k).unwrap();
                    assert(is_first(was.keys(), k, j));
                    lemma_first(was.keys(), k, j);
                    assert(is_first(self.keys(), k, j));
                    lemma_first(self.keys(), k, j);
                }
            }
            assert(self@ =~= was@.insert(name, value));
        }
    }
}

}
