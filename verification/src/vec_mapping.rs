use vstd::prelude::*;
use crate::error::Error;
use crate::keys::StorageKey;
use crate::mapping::Mapping;

verus! {

/// Data structure for storing lists of values, one list per key.
///
/// Similar to [`Mapping`], but a value is stored under a `(key, position)` pair, and
/// the length of each key's list is stored beside it.
pub struct VecMapping<K, V> {
    mapping: Mapping<(K, u32), V>,
    lengths: Mapping<K, u32>,
}

impl<K: StorageKey + Copy, V: Copy> VecMapping<K, V> {
    /// The number of items stored under `key`.
    pub closed spec fn len_of(&self, key: K) -> nat {
        if self.lengths.contents().contains_key(key) {
            self.lengths.contents()[key] as nat
        } else {
            0
        }
    }

    /// The list stored under `key`.
    pub closed spec fn values(&self, key: K) -> Seq<V> {
        Seq::new(self.len_of(key), |i: int| self.mapping.contents()[(key, i as u32)])
    }

    /// Well-formed: every key holds exactly the positions below its length.
    pub closed spec fn wf(&self) -> bool {
        &&& self.mapping.wf()
        &&& self.lengths.wf()
        &&& forall|k: K, i: u32|
            #[trigger] self.mapping.contents().contains_key((k, i)) <==> i < self.len_of(k)
    }

    /// The name of the dictionary that holds the values.
    pub closed spec fn name(&self) -> Seq<char> {
        self.mapping.name()
    }

    /// Creates a new, empty instance; the lengths are kept under `name` with the
    /// suffix `_length`.
    pub fn new(name: String) -> (vm: Self)
        ensures
            vm.wf(),
            vm.name() == name@,
            forall|k: K| #[trigger] vm.values(k) == Seq::<V>::empty(),
    {
        let lengths_name = crate::names::with_suffix(name.as_str(), "_length");
        let vm = VecMapping { mapping: Mapping::new(name), lengths: Mapping::new(lengths_name) };
        assert forall|k: K| #[trigger] vm.values(k) == Seq::<V>::empty() by {
            assert(vm.values(k) =~= Seq::<V>::empty());
        }
        vm
    }

    /// The instance of a namespace: the values are kept under `namespace:mapping` and
    /// the lengths under `namespace:lengths`.
    pub fn instance(namespace: &str) -> (vm: Self)
        ensures
            vm.wf(),
            vm.name() == namespace@ + ":mapping"@,
            forall|k: K| #[trigger] vm.values(k) == Seq::<V>::empty(),
    {
        let vm = VecMapping {
            mapping: Mapping::new(crate::names::with_suffix(namespace, ":mapping")),
            lengths: Mapping::new(crate::names::with_suffix(namespace, ":lengths")),
        };
        assert forall|k: K| #[trigger] vm.values(k) == Seq::<V>::empty() by {
            assert(vm.values(k) =~= Seq::<V>::empty());
        }
        vm
    }

    fn length(&self, key: &K) -> (len: u32)
        requires
            self.wf(),
        ensures
            len == self.len_of(*key),
    {
        match self.lengths.get(key) {
            Some(l) => l,
            None => 0,
        }
    }

    /// Replaces the value at position `at` of the list under `key`; fails with
    /// `MappingIndexDoesNotExist` when the list has no such position.
    pub fn replace(&mut self, key: K, at: u32, value: V) -> (result: Result<(), Error>)
        requires
            old(self).wf(),
        ensures
            final(self).wf(),
            final(self).name() == old(self).name(),
            match result {
                Ok(()) => at < old(self).values(key).len() && final(self).values(key) == old(self).values(key).update(at as int, value),
                Err(e) => at >= old(self).values(key).len() && e == Error::MappingIndexDoesNotExist
                    && final(self).values(key) == old(self).values(key),
            },
            forall|k: K| k != key ==> #[trigger] final(self).values(k) == old(self).values(k),
    {
        let length = self.length(&key);
        if at >= length {
            return Err(Error::MappingIndexDoesNotExist);
        }
        let ghost pre = *self;
        self.mapping.set(&(key, at), value);
        assert(self.lengths.contents() == pre.lengths.contents());
        assert forall|k: K, i: u32|
            #[trigger] self.mapping.contents().contains_key((k, i)) <==> i < self.len_of(k) by {
            assert(pre.mapping.contents().contains_key((k, i)) <==> i < pre.len_of(k));
        }
        assert(self.values(key) =~= pre.values(key).update(at as int, value));
        assert forall|k: K| k != key implies #[trigger] self.values(k) == pre.values(k) by {
            assert(self.values(k) =~= pre.values(k));
        }
        Ok(())
    }

    /// Reads the value at position `at` of the list under `key`, or `None` when the list
    /// has no such position.
    pub fn get(&self, key: K, at: u32) -> (value: Option<V>)
        requires
            self.wf(),
        ensures
            value == (if at < self.values(key).len() {
                Some(self.values(key)[at as int])
            } else {
                None::<V>
            }),
    {
        let r = self.mapping.get(&(key, at));
        assert(self.mapping.contents().contains_key((key, at)) <==> at < self.len_of(key));
        r
    }

    /// Every value stored under `key`, in order.
    pub fn get_all(&self, key: K) -> (all: Vec<V>)
        requires
            self.wf(),
        ensures
            all@ == self.values(key),
    {
        let length = self.length(&key);
        let mut result: Vec<V> = Vec::new();
        let mut i: u32 = 0;
        while i < length
            invariant
                self.wf(),
                length == self.len_of(key),
                i <= length,
                result@ == self.values(key).subrange(0, i as int),
            decreases length - i,
        {
            if let Some(value) = self.get(key, i) {
                result.push(value);
            }
            assert(result@ =~= self.values(key).subrange(0, i + 1));
            i = i + 1;
        }
        assert(result@ =~= self.values(key));
        result
    }

    /// Reads the value at position `at` of the list under `key`, or `None` when the list
    /// has no such position.
    pub fn get_or_none(&self, key: K, at: u32) -> (value: Option<V>)
        requires
            self.wf(),
        ensures
            value == (if at < self.values(key).len() {
                Some(self.values(key)[at as int])
            } else {
                None::<V>
            }),
    {
        self.get(key, at)
    }

    /// Reads the value at position `at` of the list under `key`; fails with
    /// `ValueNotAvailable` when the list has no such position.
    pub fn get_or_revert(&self, key: K, at: u32) -> (value: Result<V, Error>)
        requires
            self.wf(),
        ensures
            match value {
                Ok(v) => at < self.values(key).len() && v == self.values(key)[at as int],
                Err(e) => at >= self.values(key).len() && e == Error::ValueNotAvailable,
            },
    {
        let r = self.mapping.get_or_revert(&(key, at));
        assert(self.mapping.contents().contains_key((key, at)) <==> at < self.len_of(key));
        r
    }

    /// Appends `value` to the list under `key`.
    pub fn add(&mut self, key: K, value: V)
        requires
            old(self).wf(),
            old(self).values(key).len() < u32::MAX,
        ensures
            final(self).wf(),
            final(self).name() == old(self).name(),
            final(self).values(key) == old(self).values(key).push(value),
            forall|k: K| k != key ==> #[trigger] final(self).values(k) == old(self).values(k),
    {
        let length = self.length(&key);
        let ghost pre = *self;
        self.lengths.set(&key, length + 1);
        self.mapping.set(&(key, length), value);
        assert forall|k: K, i: u32|
            #[trigger] self.mapping.contents().contains_key((k, i)) <==> i < self.len_of(k) by {
            assert(pre.mapping.contents().contains_key((k, i)) <==> i < pre.len_of(k));
        }
        assert(self.values(key) =~= pre.values(key).push(value));
        assert forall|k: K| k != key implies #[trigger] self.values(k) == pre.values(k) by {
            assert(self.values(k) =~= pre.values(k));
        }
    }

    /// Number of items stored under `key`.
    pub fn len(&self, key: K) -> (len: u32)
        requires
            self.wf(),
        ensures
            len == self.values(key).len(),
    {
        self.length(&key)
    }
}

/// A call on a [`VecMapping`]: appending a value to a key's list, or replacing the
/// value at a position of it.
pub enum VecOp<K, V> {
    Add(K, V),
    Replace(K, u32, V),
}

/// `after` is what the call `op` on `before` leaves, as the contracts of
/// [`VecMapping::add`] and [`VecMapping::replace`] state it.
pub open spec fn op_step<K: StorageKey + Copy, V: Copy>(
    before: VecMapping<K, V>,
    op: VecOp<K, V>,
    after: VecMapping<K, V>,
) -> bool {
    match op {
        VecOp::Add(key, value) => {
            &&& after.values(key) == before.values(key).push(value)
            &&& forall|k: K| k != key ==> #[trigger] after.values(k) == before.values(k)
        },
        VecOp::Replace(key, at, value) => {
            &&& after.values(key) == if at < before.values(key).len() {
                before.values(key).update(at as int, value)
            } else {
                before.values(key)
            }
            &&& forall|k: K| k != key ==> #[trigger] after.values(k) == before.values(k)
        },
    }
}

/// The number of the calls in `ops` that add a value under `key`.
pub open spec fn adds_under<K, V>(ops: Seq<VecOp<K, V>>, key: K) -> nat
    decreases ops.len(),
{
    if ops.len() == 0 {
        0
    } else {
        adds_under(ops.drop_last(), key) + match ops.last() {
            VecOp::Add(k, _) => if k == key { 1nat } else { 0nat },
            VecOp::Replace(..) => 0nat,
        }
    }
}

/// After any sequence of calls of `add` and `replace` on a new mapping (every list
/// empty), the length of the list under a key is the number of values added under that
/// key; in particular it is zero for a key nothing was added under.
pub proof fn law_len_counts_adds<K: StorageKey + Copy, V: Copy>(
    states: Seq<VecMapping<K, V>>,
    ops: Seq<VecOp<K, V>>,
    key: K,
)
    requires
        states.len() == ops.len() + 1,
        forall|k: K| #[trigger] states[0].values(k).len() == 0,
        forall|i: int| 0 <= i < ops.len() ==> op_step(states[i], #[trigger] ops[i], states[i + 1]),
    ensures
        states.last().values(key).len() == adds_under(ops, key),
    decreases ops.len(),
{
    if ops.len() > 0 {
        let n = ops.len() - 1;
        let prev_states = states.drop_last();
        let prev_ops = ops.drop_last();
        assert forall|i: int| 0 <= i < prev_ops.len() implies op_step(
            prev_states[i],
            #[trigger] prev_ops[i],
            prev_states[i + 1],
        ) by {
            assert(op_step(states[i], ops[i], states[i + 1]));
        }
        law_len_counts_adds(prev_states, prev_ops, key);
        assert(op_step(states[n], ops[n], states[n + 1]));
        assert(prev_states.last() == states[n]);
    }
}

} // verus!
