use vstd::prelude::*;
use crate::keys::StorageKey;

verus! {

/// The dictionary that a list of `(key, value)` pairs stands for: a key maps to the
/// value of the pair that holds it.
pub open spec fn pairs_map<K, V>(pairs: Seq<(K, V)>) -> Map<K, V> {
    Map::new(
        |k: K| exists|i: int| 0 <= i < pairs.len() && #[trigger] pairs[i].0 == k,
        |k: K| pairs[choose|i: int| 0 <= i < pairs.len() && #[trigger] pairs[i].0 == k].1,
    )
}

/// No key occurs in two pairs.
pub open spec fn keys_unique<K, V>(pairs: Seq<(K, V)>) -> bool {
    forall|i: int, j: int|
        0 <= i < pairs.len() && 0 <= j < pairs.len() && i != j ==> #[trigger] pairs[i].0
            != #[trigger] pairs[j].0
}

pub proof fn lemma_pairs_map_at<K, V>(pairs: Seq<(K, V)>, i: int)
    requires
        keys_unique(pairs),
        0 <= i < pairs.len(),
    ensures
        pairs_map(pairs).contains_key(pairs[i].0),
        pairs_map(pairs)[pairs[i].0] == pairs[i].1,
{
    let k = pairs[i].0;
    assert(pairs_map(pairs).dom().contains(k));
    let j = choose|j: int| 0 <= j < pairs.len() && #[trigger] pairs[j].0 == k;
    assert(i == j);
}

pub proof fn lemma_pairs_map_absent<K, V>(pairs: Seq<(K, V)>, k: K)
    requires
        forall|i: int| 0 <= i < pairs.len() ==> #[trigger] pairs[i].0 != k,
    ensures
        !pairs_map(pairs).contains_key(k),
{
}

pub proof fn lemma_pairs_map_update<K, V>(pairs: Seq<(K, V)>, i: int, v: V)
    requires
        keys_unique(pairs),
        0 <= i < pairs.len(),
    ensures
        keys_unique(pairs.update(i, (pairs[i].0, v))),
        pairs_map(pairs.update(i, (pairs[i].0, v))) == pairs_map(pairs).insert(pairs[i].0, v),
{
    let k = pairs[i].0;
    let s2 = pairs.update(i, (k, v));
    let m1 = pairs_map(pairs).insert(k, v);
    let m2 = pairs_map(s2);
    assert forall|x: K| m2.contains_key(x) <==> m1.contains_key(x) by {
        if m1.contains_key(x) && x != k {
            let j = choose|j: int| 0 <= j < pairs.len() && #[trigger] pairs[j].0 == x;
            assert(s2[j].0 == x);
        }
        if x == k {
            assert(s2[i].0 == k);
        }
    }
    assert forall|x: K| #[trigger] m2.contains_key(x) implies m2[x] == m1[x] by {
        let j = choose|j: int| 0 <= j < s2.len() && #[trigger] s2[j].0 == x;
        lemma_pairs_map_at(s2, j);
        if x != k {
            lemma_pairs_map_at(pairs, j);
        }
    }
    assert(m2 =~= m1);
}

pub proof fn lemma_pairs_map_push<K, V>(pairs: Seq<(K, V)>, k: K, v: V)
    requires
        keys_unique(pairs),
        !pairs_map(pairs).contains_key(k),
    ensures
        keys_unique(pairs.push((k, v))),
        pairs_map(pairs.push((k, v))) == pairs_map(pairs).insert(k, v),
{
    let s2 = pairs.push((k, v));
    let m1 = pairs_map(pairs).insert(k, v);
    let m2 = pairs_map(s2);
    assert forall|i: int| 0 <= i < pairs.len() implies #[trigger] pairs[i].0 != k by {
        if pairs[i].0 == k {
            assert(pairs_map(pairs).dom().contains(k));
        }
    }
    assert forall|x: K| m2.contains_key(x) <==> m1.contains_key(x) by {
        if m1.contains_key(x) && x != k {
            let j = choose|j: int| 0 <= j < pairs.len() && #[trigger] pairs[j].0 == x;
            assert(s2[j].0 == x);
        }
        if x == k {
            assert(s2[pairs.len() as int].0 == k);
        }
    }
    assert forall|x: K| #[trigger] m2.contains_key(x) implies m2[x] == m1[x] by {
        let j = choose|j: int| 0 <= j < s2.len() && #[trigger] s2[j].0 == x;
        lemma_pairs_map_at(s2, j);
        if x != k {
            lemma_pairs_map_at(pairs, j);
        }
    }
    assert(m2 =~= m1);
}

/// Data structure for storing key-value pairs under a dictionary name.
///
/// A key holds no value until it is set; `set` overrides what was there.
pub struct Mapping<K, V> {
    name: String,
    entries: Vec<(K, V)>,
}

impl<K: StorageKey + Copy, V: Copy> Mapping<K, V> {
    /// Well-formed: no key is stored twice.
    pub closed spec fn wf(&self) -> bool {
        keys_unique(self.entries@)
    }

    /// The stored dictionary.
    pub closed spec fn contents(&self) -> Map<K, V> {
        pairs_map(self.entries@)
    }

    /// The dictionary's name.
    pub closed spec fn name(&self) -> Seq<char> {
        self.name@
    }

    /// Creates an empty mapping stored under `name`.
    pub fn new(name: String) -> (mapping: Self)
        ensures
            mapping.wf(),
            mapping.contents() == Map::<K, V>::empty(),
            mapping.name() == name@,
    {
        let mapping = Mapping { name, entries: Vec::new() };
        assert(mapping.contents() =~= Map::<K, V>::empty());
        mapping
    }

    fn find(&self, key: &K) -> (found: Option<usize>)
        requires
            self.wf(),
        ensures
            match found {
                Some(i) => i < self.entries@.len() && self.entries@[i as int].0 == *key,
                None => !self.contents().contains_key(*key),
            },
    {
        let mut i: usize = 0;
        while i < self.entries.len()
            invariant
                i <= self.entries@.len(),
                forall|j: int| 0 <= j < i ==> #[trigger] self.entries@[j].0 != *key,
            decreases self.entries@.len() - i,
        {
            if self.entries[i].0.key_eq(key) {
                return Some(i);
            }
            i = i + 1;
        }
        proof {
            lemma_pairs_map_absent(self.entries@, *key);
        }
        None
    }

    /// The mapping of a namespace: an empty mapping named after it.
    pub fn instance(namespace: &str) -> (mapping: Self)
        ensures
            mapping.wf(),
            mapping.contents() == Map::<K, V>::empty(),
            mapping.name() == namespace@,
    {
        Self::new(namespace.to_owned())
    }

    /// Reads the value under `key`, or `None` if the key holds none.
    pub fn get(&self, key: &K) -> (value: Option<V>)
        requires
            self.wf(),
        ensures
            value == self.contents().get(*key),
    {
        self.get_or_none(key)
    }

    /// Reads the value under `key`, or `None` if the key holds none.
    pub fn get_or_none(&self, key: &K) -> (value: Option<V>)
        requires
            self.wf(),
        ensures
            value == self.contents().get(*key),
    {
        match self.find(key) {
            Some(i) => {
                proof {
                    lemma_pairs_map_at(self.entries@, i as int);
                }
                Some(self.entries[i].1)
            },
            None => None,
        }
    }

    /// Reads the value under `key`; fails with `ValueNotAvailable` if the key holds none.
    pub fn get_or_revert(&self, key: &K) -> (value: Result<V, crate::error::Error>)
        requires
            self.wf(),
        ensures
            match value {
                Ok(v) => self.contents().contains_key(*key) && v == self.contents()[*key],
                Err(e) => !self.contents().contains_key(*key)
                    && e == crate::error::Error::ValueNotAvailable,
            },
    {
        match self.get_or_none(key) {
            Some(v) => Ok(v),
            None => Err(crate::error::Error::ValueNotAvailable),
        }
    }

    /// Sets `value` under `key`, overriding what was there.
    pub fn set(&mut self, key: &K, value: V)
        requires
            old(self).wf(),
        ensures
            final(self).wf(),
            final(self).contents() == old(self).contents().insert(*key, value),
            final(self).name() == old(self).name(),
    {
        match self.find(key) {
            Some(i) => {
                proof {
                    lemma_pairs_map_update(self.entries@, i as int, value);
                }
                self.entries.set(i, (*key, value));
            },
            None => {
                proof {
                    lemma_pairs_map_push(self.entries@, *key, value);
                }
                self.entries.push((*key, value));
            },
        }
    }

    /// The dictionary's name.
    pub fn path(&self) -> (path: &str)
        ensures
            path@ == self.name(),
    {
        self.name.as_str()
    }
}

/// A read gives back what the last write under the same key wrote, and a write leaves
/// every other key as it was.
pub proof fn law_mapping_read_after_write<K, V>(contents: Map<K, V>, key: K, value: V, other: K)
    ensures
        contents.insert(key, value).get(key) == Some(value),
        other != key ==> contents.insert(key, value).get(other) == contents.get(other),
{
}

} // verus!
