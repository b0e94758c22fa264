//! A map keyed by strings, kept as a list of entries with distinct keys.
//! Its view is the mathematical map from key text to value view.

use vstd::prelude::*;

verus! {

/// The map that a list of key/value pairs stands for. Of two pairs with one
/// key the later one counts.
pub open spec fn pairs_to_map<T>(pairs: Seq<(Seq<char>, T)>) -> Map<Seq<char>, T>
    decreases pairs.len(),
{
    if pairs.len() == 0 {
        Map::empty()
    } else {
        pairs_to_map(pairs.drop_last()).insert(pairs.last().0, pairs.last().1)
    }
}

/// No two pairs of the list have the same key.
pub open spec fn distinct_keys<T>(pairs: Seq<(Seq<char>, T)>) -> bool {
    forall|i: int, j: int|
        0 <= i < j < pairs.len() ==> (#[trigger] pairs[i]).0 != (#[trigger] pairs[j]).0
}

/// No pair of the list has this key.
pub open spec fn key_absent<T>(pairs: Seq<(Seq<char>, T)>, key: Seq<char>) -> bool {
    forall|i: int| 0 <= i < pairs.len() ==> (#[trigger] pairs[i]).0 != key
}

/// The map of a list holds exactly the keys of its pairs.
pub proof fn lemma_pairs_domain<T>(pairs: Seq<(Seq<char>, T)>, key: Seq<char>)
    ensures
        pairs_to_map(pairs).contains_key(key) <==> !key_absent(pairs, key),
    decreases pairs.len(),
{
    if pairs.len() > 0 {
        let front = pairs.drop_last();
        lemma_pairs_domain(front, key);
        if !key_absent(front, key) {
            let i = choose|i: int| 0 <= i < front.len() && (#[trigger] front[i]).0 == key;
            assert(pairs[i] == front[i]);
        }
        if !key_absent(pairs, key) {
            let i = choose|i: int| 0 <= i < pairs.len() && (#[trigger] pairs[i]).0 == key;
            if i < front.len() {
                assert(front[i] == pairs[i]);
            }
        }
    }
}

/// In a list with distinct keys, the map sends each pair's key to its value.
pub proof fn lemma_pairs_lookup<T>(pairs: Seq<(Seq<char>, T)>, i: int)
    requires
        distinct_keys(pairs),
        0 <= i < pairs.len(),
    ensures
        pairs_to_map(pairs).contains_key(pairs[i].0),
        pairs_to_map(pairs)[pairs[i].0] == pairs[i].1,
    decreases pairs.len(),
{
    let front = pairs.drop_last();
    if i < pairs.len() - 1 {
        assert forall|a: int, b: int| 0 <= a < b < front.len() implies (#[trigger] front[a]).0 != (
        #[trigger] front[b]).0 by {
            assert(front[a] == pairs[a] && front[b] == pairs[b]);
        }
        assert(front[i] == pairs[i]);
        lemma_pairs_lookup(front, i);
        assert(pairs[i].0 != pairs[pairs.len() - 1].0);
    }
}

/// In a list with distinct keys, replacing the value of a pair is inserting
/// into the map, and the keys stay distinct.
pub proof fn lemma_pairs_update<T>(pairs: Seq<(Seq<char>, T)>, i: int, value: T)
    requires
        distinct_keys(pairs),
        0 <= i < pairs.len(),
    ensures
        pairs_to_map(pairs.update(i, (pairs[i].0, value))) == pairs_to_map(pairs).insert(
            pairs[i].0,
            value,
        ),
        distinct_keys(pairs.update(i, (pairs[i].0, value))),
    decreases pairs.len(),
{
    let key = pairs[i].0;
    let updated = pairs.update(i, (key, value));
    let front = pairs.drop_last();
    let last = pairs.len() - 1;
    assert forall|a: int, b: int| 0 <= a < b < updated.len() implies (#[trigger] updated[a]).0 != (
    #[trigger] updated[b]).0 by {
        assert(updated[a].0 == pairs[a].0 && updated[b].0 == pairs[b].0);
    }
    if i == last {
        assert(updated.drop_last() =~= front);
        assert(pairs_to_map(updated) =~= pairs_to_map(pairs).insert(key, value));
    } else {
        assert forall|a: int, b: int| 0 <= a < b < front.len() implies (#[trigger] front[a]).0 != (
        #[trigger] front[b]).0 by {
            assert(front[a] == pairs[a] && front[b] == pairs[b]);
        }
        assert(front[i] == pairs[i]);
        lemma_pairs_update(front, i, value);
        assert(updated.drop_last() =~= front.update(i, (key, value)));
        assert(updated.last() == pairs.last());
        assert(pairs[i].0 != pairs[last].0);
        assert(pairs_to_map(updated) =~= pairs_to_map(pairs).insert(key, value));
    }
}

/// Appending a pair is inserting into the map; a key that the list lacks
/// keeps the keys distinct.
pub proof fn lemma_pairs_push<T>(pairs: Seq<(Seq<char>, T)>, key: Seq<char>, value: T)
    ensures
        pairs_to_map(pairs.push((key, value))) == pairs_to_map(pairs).insert(key, value),
        distinct_keys(pairs) && key_absent(pairs, key) ==> distinct_keys(pairs.push((key, value))),
{
    let pushed = pairs.push((key, value));
    assert(pushed.drop_last() =~= pairs);
    if distinct_keys(pairs) && key_absent(pairs, key) {
        assert forall|a: int, b: int| 0 <= a < b < pushed.len() implies (#[trigger] pushed[a]).0 != (
        #[trigger] pushed[b]).0 by {
            assert(pushed[a] == pairs[a]);
            if b < pairs.len() {
                assert(pushed[b] == pairs[b]);
            }
        }
    }
}

/// Whether `after` is `before` with `key` set to `value`: in the place where
/// `before` has the key, or else at the end.
pub open spec fn upserted<T>(
    before: Seq<(Seq<char>, T)>,
    after: Seq<(Seq<char>, T)>,
    key: Seq<char>,
    value: T,
) -> bool {
    ||| key_absent(before, key) && after == before.push((key, value))
    ||| exists|i: int|
        0 <= i < before.len() && (#[trigger] before[i]).0 == key && after == before.update(
            i,
            (key, value),
        )
}

/// A map from strings to values, with upsert semantics.
#[derive(Debug)]
pub struct StringMap<V: View> {
    entries: Vec<(String, V)>,
}

impl<V: View> StringMap<V> {
    /// The entries in the order in which their keys first came, each as the
    /// key's text and the value's view.
    pub closed spec fn entries(&self) -> Seq<(Seq<char>, V::V)> {
        Seq::new(self.entries@.len(), |i: int| (self.entries@[i].0@, self.entries@[i].1@))
    }

    #[verifier::type_invariant]
    spec fn keys_are_distinct(&self) -> bool {
        distinct_keys(self.entries())
    }

    /// The values of the entries, in the order of the entries.
    pub open spec fn values(&self) -> Seq<V::V> {
        Seq::new(self.entries().len(), |i: int| self.entries()[i].1)
    }

    /// The empty map.
    pub fn new() -> (r: Self)
        ensures
            r@ == Map::<Seq<char>, V::V>::empty(),
            r.entries() == Seq::<(Seq<char>, V::V)>::empty(),
    {
        let r = StringMap { entries: Vec::new() };
        assert(r.entries() =~= Seq::<(Seq<char>, V::V)>::empty());
        r
    }

    /// The number of entries, whose keys are distinct.
    pub fn len(&self) -> (n: usize)
        ensures
            n == self.entries().len(),
            n == self@.dom().len(),
            distinct_keys(self.entries()),
    {
        proof {
            use_type_invariant(self);
            lemma_pairs_count(self.entries());
        }
        self.entries.len()
    }

    /// The key of the entry at `i`.
    pub fn key_at(&self, i: usize) -> (key: &String)
        requires
            i < self.entries().len(),
        ensures
            key@ == self.entries()[i as int].0,
            self@.contains_key(key@),
    {
        proof {
            use_type_invariant(self);
            lemma_pairs_lookup(self.entries(), i as int);
        }
        &self.entries[i].0
    }

    /// The value of the entry at `i`.
    pub fn value_at(&self, i: usize) -> (value: &V)
        requires
            i < self.entries().len(),
        ensures
            value@ == self.entries()[i as int].1,
            self@.contains_key(self.entries()[i as int].0),
            self@[self.entries()[i as int].0] == value@,
    {
        proof {
            use_type_invariant(self);
            lemma_pairs_lookup(self.entries(), i as int);
        }
        &self.entries[i].1
    }

    /// The place of `key` among the entries, if it has one.
    fn position(&self, key: &str) -> (r: Option<usize>)
        ensures
            match r {
                Some(i) => i < self.entries().len() && self.entries()[i as int].0 == key@,
                None => key_absent(self.entries(), key@),
            },
    {
        let n = self.entries.len();
        let mut i: usize = 0;
        while i < n
            invariant
                n == self.entries@.len(),
                0 <= i <= n,
                forall|j: int| 0 <= j < i ==> (#[trigger] self.entries()[j]).0 != key@,
            decreases n - i,
        {
            if *self.entries[i].0.as_str() == *key {
                return Some(i);
            }
            i += 1;
        }
        None
    }

    /// The value that `key` maps to, if it maps to one.
    pub fn get(&self, key: &str) -> (r: Option<&V>)
        ensures
            match r {
                Some(value) => self@.contains_key(key@) && self@[key@] == value@,
                None => !self@.contains_key(key@),
            },
    {
        proof {
            use_type_invariant(self);
            lemma_pairs_domain(self.entries(), key@);
        }
        match self.position(key) {
            Some(i) => {
                proof {
                    lemma_pairs_lookup(self.entries(), i as int);
                }
                Some(&self.entries[i].1)
            },
            None => None,
        }
    }

    /// Maps `key` to `value`, in place of what it mapped to before. A new
    /// key's entry comes last; a known key's entry keeps its place.
    pub fn insert(&mut self, key: String, value: V)
        ensures
            final(self)@ == old(self)@.insert(key@, value@),
            upserted(old(self).entries(), final(self).entries(), key@, value@),
    {
        proof {
            use_type_invariant(&*self);
        }
        let ghost before = self.entries();
        let position = self.position(key.as_str());
        let mut entries: Vec<(String, V)> = Vec::new();
        core::mem::swap(&mut self.entries, &mut entries);
        match position {
            Some(i) => {
                proof {
                    lemma_pairs_update(before, i as int, value@);
                }
                entries.set(i, (key, value));
            },
            None => {
                proof {
                    lemma_pairs_push(before, key@, value@);
                }
                entries.push((key, value));
            },
        }
        proof {
            let next = StringMap { entries };
            match position {
                Some(i) => {
                    assert(next.entries() =~= before.update(i as int, (key@, value@)));
                    assert(before[i as int].0 == key@);
                },
                None => {
                    assert(next.entries() =~= before.push((key@, value@)));
                },
            }
        }
        self.entries = entries;
    }
}

impl Clone for StringMap<String> {
    fn clone(&self) -> (r: Self)
        ensures
            r.entries() == self.entries(),
            r@ == self@,
    {
        proof {
            use_type_invariant(self);
        }
        let n = self.entries.len();
        let mut entries: Vec<(String, String)> = Vec::new();
        let mut i: usize = 0;
        while i < n
            invariant
                n == self.entries@.len(),
                0 <= i <= n,
                entries@.len() == i,
                forall|j: int|
                    0 <= j < i ==> (#[trigger] entries@[j]).0@ == self.entries@[j].0@ && entries@[j].1@
                        == self.entries@[j].1@,
            decreases n - i,
        {
            entries.push((self.entries[i].0.clone(), self.entries[i].1.clone()));
            i += 1;
        }
        proof {
            let next = StringMap { entries };
            assert(next.entries() =~= self.entries());
        }
        StringMap { entries }
    }
}

impl<V: View> View for StringMap<V> {
    type V = Map<Seq<char>, V::V>;

    open spec fn view(&self) -> Map<Seq<char>, V::V> {
        pairs_to_map(self.entries())
    }
}

/// A list with distinct keys has as many pairs as its map has keys.
pub proof fn lemma_pairs_count<T>(pairs: Seq<(Seq<char>, T)>)
    requires
        distinct_keys(pairs),
    ensures
        pairs_to_map(pairs).dom().finite(),
        pairs_to_map(pairs).dom().len() == pairs.len(),
    decreases pairs.len(),
{
    if pairs.len() > 0 {
        let front = pairs.drop_last();
        assert forall|a: int, b: int| 0 <= a < b < front.len() implies (#[trigger] front[a]).0 != (
        #[trigger] front[b]).0 by {
            assert(front[a] == pairs[a] && front[b] == pairs[b]);
        }
        lemma_pairs_count(front);
        lemma_pairs_domain(front, pairs.last().0);
        assert forall|i: int| 0 <= i < front.len() implies (#[trigger] front[i]).0 != pairs.last().0 by {
            assert(front[i] == pairs[i]);
            assert(pairs[i].0 != pairs[pairs.len() - 1].0);
        }
        assert(pairs_to_map(pairs).dom() =~= pairs_to_map(front).dom().insert(pairs.last().0));
    } else {
        assert(pairs_to_map(pairs).dom() =~= Set::<Seq<char>>::empty());
    }
}

} // verus!
