use vstd::prelude::*;
use crate::keys::StorageKey;
use crate::mapping::Mapping;
use std::hash::BuildHasher;

verus! {

/// What `DefaultHasher` makes of a `u32` (the hasher of `std` with its fixed keys).
pub uninterp spec fn default_hash_of_u32(value: u32) -> u64;

/// What `DefaultHasher` makes of a `u64` (the hasher of `std` with its fixed keys).
pub uninterp spec fn default_hash_of_u64(value: u64) -> u64;

/// Hashes `value` with `std`'s `DefaultHasher` (through `BuildHasher::hash_one` of the
/// default builder, which feeds the value to a fresh `DefaultHasher` and finishes it).
/// Claimed: the result is a function of the value alone.
#[verifier::external_body]
fn hash_u32(value: u32) -> (h: u64)
    ensures
        h == default_hash_of_u32(value),
{
    std::hash::BuildHasherDefault::<std::collections::hash_map::DefaultHasher>::default().hash_one(
        value,
    )
}

/// Hashes `value` with `std`'s `DefaultHasher` (through `BuildHasher::hash_one` of the
/// default builder). Claimed: the result is a function of the value alone.
#[verifier::external_body]
fn hash_u64(value: u64) -> (h: u64)
    ensures
        h == default_hash_of_u64(value),
{
    std::hash::BuildHasherDefault::<std::collections::hash_map::DefaultHasher>::default().hash_one(
        value,
    )
}

/// A value that an [`Index`] can find again by its hash.
pub trait Hashed: StorageKey {
    spec fn spec_hash(&self) -> u64;

    fn calculate_hash(&self) -> (h: u64)
        ensures
            h == self.spec_hash(),
    ;
}

impl Hashed for u32 {
    open spec fn spec_hash(&self) -> u64 {
        default_hash_of_u32(*self)
    }

    fn calculate_hash(&self) -> (h: u64) {
        hash_u32(*self)
    }
}

impl Hashed for u64 {
    open spec fn spec_hash(&self) -> u64 {
        default_hash_of_u64(*self)
    }

    fn calculate_hash(&self) -> (h: u64) {
        hash_u64(*self)
    }
}

/// The position that an index slot holds: none where the slot was never set.
pub open spec fn slot(contents: Map<u64, Option<u32>>, h: u64) -> Option<u32> {
    if contents.contains_key(h) {
        contents[h]
    } else {
        None
    }
}

/// Remembers, for each value, the position at which it was stored; values are told
/// apart by their hash.
pub struct Index {
    index: Mapping<u64, Option<u32>>,
}

impl Index {
    pub closed spec fn wf(&self) -> bool {
        self.index.wf()
    }

    /// The slots: hash of a value to the position remembered for it.
    pub closed spec fn slots(&self) -> Map<u64, Option<u32>> {
        self.index.contents()
    }

    pub closed spec fn name(&self) -> Seq<char> {
        self.index.name()
    }

    /// The position remembered for `value`.
    pub open spec fn position_of<V: Hashed>(&self, value: V) -> Option<u32> {
        slot(self.slots(), value.spec_hash())
    }

    /// Creates an empty index kept under `name` with the suffix `_idx`.
    pub fn new(name: String) -> (index: Self)
        ensures
            index.wf(),
            index.slots() == Map::<u64, Option<u32>>::empty(),
            index.name() == name@ + "_idx"@,
    {
        Index { index: Mapping::new(crate::names::with_suffix(name.as_str(), "_idx")) }
    }

    /// The index of a namespace, kept under `namespace:index`.
    pub fn instance(namespace: &str) -> (index: Self)
        ensures
            index.wf(),
            index.slots() == Map::<u64, Option<u32>>::empty(),
            index.name() == namespace@ + ":index"@,
    {
        Index { index: Mapping::new(crate::names::with_suffix(namespace, ":index")) }
    }

    /// Remembers `index` as the position of `value`.
    pub fn set<V: Hashed>(&mut self, index: u32, value: &V)
        requires
            old(self).wf(),
        ensures
            final(self).wf(),
            final(self).name() == old(self).name(),
            final(self).slots() == old(self).slots().insert(value.spec_hash(), Some(index)),
    {
        let value_hash = value.calculate_hash();
        self.index.set(&value_hash, Some(index));
    }

    /// Forgets the position of `value`.
    pub fn unset<V: Hashed>(&mut self, value: &V)
        requires
            old(self).wf(),
        ensures
            final(self).wf(),
            final(self).name() == old(self).name(),
            final(self).slots() == old(self).slots().insert(value.spec_hash(), None),
    {
        let value_hash = value.calculate_hash();
        self.index.set(&value_hash, None);
    }

    /// The position remembered for `value`, if any.
    pub fn get<V: Hashed>(&self, value: &V) -> (position: Option<u32>)
        requires
            self.wf(),
        ensures
            position == self.position_of(*value),
    {
        let value_hash = value.calculate_hash();
        match self.index.get(&value_hash) {
            Some(p) => p,
            None => None,
        }
    }
}

/// The value that a position holds: none where the position was never set or was
/// cleared.
pub open spec fn stored_at<V>(contents: Map<u32, Option<V>>, index: u32) -> Option<V> {
    if contents.contains_key(index) {
        contents[index]
    } else {
        None
    }
}

/// Every position that the index remembers holds a value with the hash it is
/// remembered under.
pub open spec fn index_points_to_holders<V: Hashed>(
    entries: Map<u32, Option<V>>,
    positions: Map<u64, Option<u32>>,
) -> bool {
    forall|h: u64|
        #[trigger] positions.contains_key(h) && positions[h] is Some ==> {
            let held = stored_at(entries, positions[h]->0);
            held is Some && held->0.spec_hash() == h
        }
}

/// Every stored value is remembered at its position. (Then no two positions hold
/// values of the same hash.)
pub open spec fn index_complete<V: Hashed>(
    entries: Map<u32, Option<V>>,
    positions: Map<u64, Option<u32>>,
) -> bool {
    forall|p: u32|
        #[trigger] entries.contains_key(p) && entries[p] is Some ==> slot(
            positions,
            entries[p]->0.spec_hash(),
        ) == Some(p)
}

/// The index with the position of the value held at `index` forgotten, where the index
/// remembers that position for it.
pub open spec fn forget_held<V: Hashed>(
    entries: Map<u32, Option<V>>,
    positions: Map<u64, Option<u32>>,
    index: u32,
) -> Map<u64, Option<u32>> {
    match stored_at(entries, index) {
        Some(o) => if slot(positions, o.spec_hash()) == Some(index) {
            positions.insert(o.spec_hash(), None)
        } else {
            positions
        },
        None => positions,
    }
}

/// Data structure for storing index-value pairs; it also remembers the position of
/// each value, so that a value can be found and removed.
pub struct IndexedMapping<V> {
    mapping: Mapping<u32, Option<V>>,
    index: Index,
}

impl<V: Hashed + Copy> IndexedMapping<V> {
    /// Well-formed: the index only remembers positions that hold a value of the hash
    /// remembered.
    pub closed spec fn wf(&self) -> bool {
        &&& self.mapping.wf()
        &&& self.index.wf()
        &&& index_points_to_holders(self.entries(), self.positions())
    }

    /// The positions that were ever written, with what they hold.
    pub closed spec fn entries(&self) -> Map<u32, Option<V>> {
        self.mapping.contents()
    }

    /// The index from the hashes of values to positions.
    pub closed spec fn positions(&self) -> Map<u64, Option<u32>> {
        self.index.slots()
    }

    pub closed spec fn name(&self) -> Seq<char> {
        self.mapping.name()
    }

    /// Every stored value is found by its hash: no value is stored at two positions
    /// and no two stored values share a hash.
    pub open spec fn faithful(&self) -> bool {
        index_complete(self.entries(), self.positions())
    }

    /// The position at which `value` is found: the position remembered for its hash,
    /// where that position holds `value` itself.
    pub open spec fn found_at(&self, value: V) -> Option<u32> {
        match slot(self.positions(), value.spec_hash()) {
            Some(p) => if stored_at(self.entries(), p) == Some(value) {
                Some(p)
            } else {
                None
            },
            None => None,
        }
    }

    /// What the contracts of the operations read from the closed well-formedness: a
    /// remembered position holds a value with the hash it is remembered under.
    pub proof fn lemma_index_points_to_holders(&self)
        requires
            self.wf(),
        ensures
            index_points_to_holders(self.entries(), self.positions()),
    {
    }

    /// Creates an empty instance stored under `name`.
    pub fn new(name: String) -> (m: Self)
        ensures
            m.wf(),
            m.faithful(),
            m.entries() == Map::<u32, Option<V>>::empty(),
            m.positions() == Map::<u64, Option<u32>>::empty(),
            m.name() == name@,
    {
        let index = Index::new(name.clone());
        IndexedMapping { mapping: Mapping::new(name), index }
    }

    /// The instance of a namespace: the values are kept under `namespace:mapping` and
    /// the index under the index instance of `namespace:index`.
    pub fn instance(namespace: &str) -> (m: Self)
        ensures
            m.wf(),
            m.faithful(),
            m.entries() == Map::<u32, Option<V>>::empty(),
            m.positions() == Map::<u64, Option<u32>>::empty(),
            m.name() == namespace@ + ":mapping"@,
    {
        let index_namespace = crate::names::with_suffix(namespace, ":index");
        IndexedMapping {
            mapping: Mapping::new(crate::names::with_suffix(namespace, ":mapping")),
            index: Index::instance(index_namespace.as_str()),
        }
    }

    /// Forgets the position of the value held at `index`, where it is remembered there.
    fn forget_position(&mut self, index: u32)
        requires
            old(self).mapping.wf(),
            old(self).index.wf(),
        ensures
            final(self).mapping == old(self).mapping,
            final(self).index.wf(),
            final(self).index.name() == old(self).index.name(),
            final(self).positions() == forget_held(old(self).entries(), old(self).positions(), index),
    {
        if let Some(Some(held)) = self.mapping.get(&index) {
            if let Some(p) = self.index.get(&held) {
                if p == index {
                    self.index.unset(&held);
                }
            }
        }
    }

    /// Sets `value` under `index`, and remembers `index` as its position; the value that
    /// `index` held before is no longer found there.
    pub fn set(&mut self, index: u32, value: V)
        requires
            old(self).wf(),
        ensures
            final(self).wf(),
            final(self).name() == old(self).name(),
            final(self).entries() == old(self).entries().insert(index, Some(value)),
            final(self).positions() == forget_held(old(self).entries(), old(self).positions(), index).insert(
                value.spec_hash(),
                Some(index),
            ),
            old(self).faithful() && (forall|p: u32|
                p != index && #[trigger] stored_at(old(self).entries(), p) is Some ==> stored_at(
                    old(self).entries(),
                    p,
                )->0.spec_hash() != value.spec_hash()) ==> final(self).faithful(),
    {
        let ghost pre = *self;
        self.forget_position(index);
        self.index.set(index, &value);
        self.mapping.set(&index, Some(value));
        proof {
            let e = self.entries();
            let ps = self.positions();
            let fh = forget_held(pre.entries(), pre.positions(), index);
            assert forall|h: u64| #[trigger] ps.contains_key(h) && ps[h] is Some implies {
                let held = stored_at(e, ps[h]->0);
                held is Some && held->0.spec_hash() == h
            } by {
                if h != value.spec_hash() {
                    assert(ps[h] == fh[h]);
                    if let Some(o) = stored_at(pre.entries(), index) {
                        if h == o.spec_hash() && slot(pre.positions(), o.spec_hash()) == Some(index) {
                            assert(fh[h] is None);
                        }
                    }
                    assert(pre.positions().contains_key(h) && pre.positions()[h] == fh[h]);
                }
            }
            if pre.faithful() && (forall|p: u32|
                p != index && #[trigger] stored_at(pre.entries(), p) is Some ==> stored_at(
                    pre.entries(),
                    p,
                )->0.spec_hash() != value.spec_hash()) {
                assert forall|p: u32| #[trigger] e.contains_key(p) && e[p] is Some implies slot(
                    ps,
                    e[p]->0.spec_hash(),
                ) == Some(p) by {
                    if p != index {
                        let w = e[p]->0;
                        assert(stored_at(pre.entries(), p) == Some(w));
                        assert(slot(pre.positions(), w.spec_hash()) == Some(p));
                    }
                }
            }
        }
    }

    /// Reads the value under `index`, or `None`.
    pub fn get(&self, index: u32) -> (value: Option<V>)
        requires
            self.wf(),
        ensures
            value == stored_at(self.entries(), index),
    {
        match self.mapping.get(&index) {
            Some(v) => v,
            None => None,
        }
    }

    /// Replaces `value` with `None` at the position where it is found, and forgets that
    /// position; returns `(true, position)`. Returns `(false, 0)` and changes nothing
    /// where `value` is not found.
    pub fn remove(&mut self, value: V) -> (result: (bool, u32))
        requires
            old(self).wf(),
        ensures
            final(self).wf(),
            final(self).name() == old(self).name(),
            old(self).faithful() ==> final(self).faithful(),
            match old(self).found_at(value) {
                Some(p) => {
                    &&& result == (true, p)
                    &&& final(self).entries() == old(self).entries().insert(p, None)
                    &&& final(self).positions() == old(self).positions().insert(
                        value.spec_hash(),
                        None,
                    )
                },
                None => {
                    &&& result == (false, 0u32)
                    &&& final(self).entries() == old(self).entries()
                    &&& final(self).positions() == old(self).positions()
                },
            },
    {
        let ghost pre = *self;
        if let Some(item_index) = self.index.get(&value) {
            if let Some(held) = self.get(item_index) {
                if held.key_eq(&value) {
                    self.index.unset(&value);
                    self.mapping.set(&item_index, None);
                    proof {
                        let e = self.entries();
                        let ps = self.positions();
                        assert forall|h: u64| #[trigger] ps.contains_key(h) && ps[h] is Some implies {
                            let held = stored_at(e, ps[h]->0);
                            held is Some && held->0.spec_hash() == h
                        } by {
                            assert(pre.positions().contains_key(h) && pre.positions()[h] == ps[h]);
                        }
                        if pre.faithful() {
                            assert forall|p: u32| #[trigger] e.contains_key(p) && e[p] is Some implies slot(
                                ps,
                                e[p]->0.spec_hash(),
                            ) == Some(p) by {
                                let w = e[p]->0;
                                assert(pre.entries().contains_key(p) && pre.entries()[p] == Some(w));
                            }
                        }
                    }
                    return (true, item_index);
                }
            }
        }
        (false, 0)
    }

    /// Sets `None` under `index`; the value it held is no longer found there.
    pub fn unset(&mut self, index: u32)
        requires
            old(self).wf(),
        ensures
            final(self).wf(),
            final(self).name() == old(self).name(),
            final(self).entries() == old(self).entries().insert(index, None),
            final(self).positions() == forget_held(old(self).entries(), old(self).positions(), index),
            old(self).faithful() ==> final(self).faithful(),
    {
        let ghost pre = *self;
        self.forget_position(index);
        self.mapping.set(&index, None);
        proof {
            let e = self.entries();
            let ps = self.positions();
            assert forall|h: u64| #[trigger] ps.contains_key(h) && ps[h] is Some implies {
                let held = stored_at(e, ps[h]->0);
                held is Some && held->0.spec_hash() == h
            } by {
                if let Some(o) = stored_at(pre.entries(), index) {
                    if h == o.spec_hash() && slot(pre.positions(), o.spec_hash()) == Some(index) {
                        assert(ps[h] is None);
                    }
                }
                assert(pre.positions().contains_key(h) && pre.positions()[h] == ps[h]);
            }
            if pre.faithful() {
                assert forall|p: u32| #[trigger] e.contains_key(p) && e[p] is Some implies slot(
                    ps,
                    e[p]->0.spec_hash(),
                ) == Some(p) by {
                    let w = e[p]->0;
                    assert(pre.entries().contains_key(p) && pre.entries()[p] == Some(w));
                    assert(slot(pre.positions(), w.spec_hash()) == Some(p));
                }
            }
        }
    }

    /// The position of `value`, or `None` where it is not found. Where every stored
    /// value is found by its hash, this is the position that holds `value`.
    pub fn index_of(&self, value: &V) -> (position: Option<u32>)
        requires
            self.wf(),
        ensures
            position == self.found_at(*value),
            self.faithful() ==> forall|p: u32|
                (position == Some(p)) == (#[trigger] stored_at(self.entries(), p) == Some(*value)),
    {
        let found = match self.index.get(value) {
            Some(p) => match self.get(p) {
                Some(held) => if held.key_eq(value) {
                    Some(p)
                } else {
                    None
                },
                None => None,
            },
            None => None,
        };
        proof {
            if self.faithful() {
                assert forall|p: u32|
                    (found == Some(p)) == (#[trigger] stored_at(self.entries(), p) == Some(*value)) by {
                    if stored_at(self.entries(), p) == Some(*value) {
                        assert(self.entries().contains_key(p) && self.entries()[p] is Some);
                    }
                }
            }
        }
        found
    }

    /// Whether `value` is stored. Where every stored value is found by its hash, this
    /// is whether some position holds it.
    pub fn contains(&self, value: &V) -> (found: bool)
        requires
            self.wf(),
        ensures
            found == self.found_at(*value) is Some,
            self.faithful() ==> (found <==> exists|p: u32| #[trigger] stored_at(self.entries(), p) == Some(*value)),
    {
        let position = self.index_of(value);
        proof {
            if self.faithful() && !(position is Some) {
                assert forall|p: u32| #[trigger] stored_at(self.entries(), p) != Some(*value) by {
                    assert((position == Some(p)) == (stored_at(self.entries(), p) == Some(*value)));
                }
            }
        }
        position.is_some()
    }

    /// The name of the dictionary that holds the values.
    pub fn path(&self) -> (path: &str)
        ensures
            path@ == self.name(),
    {
        self.mapping.path()
    }
}

/// A value set at a position is read back from it and is found there.
pub proof fn law_indexed_set_then_read<V: Hashed>(
    entries: Map<u32, Option<V>>,
    positions: Map<u64, Option<u32>>,
    index: u32,
    value: V,
)
    ensures
        ({
            let e = entries.insert(index, Some(value));
            let p = forget_held(entries, positions, index).insert(value.spec_hash(), Some(index));
            &&& stored_at(e, index) == Some(value)
            &&& slot(p, value.spec_hash()) == Some(index)
        }),
{
}

/// A value that overwrites another at a position, or a cleared position, leaves the
/// former value there no longer found: its remembered position is forgotten, or no
/// longer holds it.
pub proof fn law_indexed_overwrite_forgets<V: Hashed>(
    entries: Map<u32, Option<V>>,
    positions: Map<u64, Option<u32>>,
    index: u32,
    old_value: V,
    new_value: Option<V>,
)
    requires
        stored_at(entries, index) == Some(old_value),
        slot(positions, old_value.spec_hash()) == Some(index),
        new_value != Some(old_value),
    ensures
        ({
            let f = forget_held(entries, positions, index);
            let p = match new_value {
                Some(v) => f.insert(v.spec_hash(), Some(index)),
                None => f,
            };
            let e = entries.insert(index, new_value);
            match slot(p, old_value.spec_hash()) {
                Some(q) => stored_at(e, q) != Some(old_value),
                None => true,
            }
        }),
{
}

} // verus!
