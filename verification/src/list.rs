use vstd::prelude::*;
use crate::error::Error;
use crate::keys::StorageKey;
use crate::mapping::Mapping;

verus! {

/// Removes position `i` by moving the last item into it (or dropping the last item
/// when `i` is the last position).
pub open spec fn swap_remove<T>(s: Seq<T>, i: int) -> Seq<T> {
    if i == s.len() - 1 {
        s.drop_last()
    } else {
        s.update(i, s.last()).drop_last()
    }
}

/// The items after adding `item`: it is appended unless it is already there.
pub open spec fn list_added<T>(s: Seq<T>, item: T) -> Seq<T> {
    if s.contains(item) {
        s
    } else {
        s.push(item)
    }
}

/// The items after removing `item`: its position is filled by the last item.
pub open spec fn list_removed<T>(s: Seq<T>, item: T) -> Seq<T> {
    if s.contains(item) {
        swap_remove(s, s.index_of(item))
    } else {
        s
    }
}

/// The item stored at a position of the dictionary, if any.
pub open spec fn item_at<T>(values: Map<u32, Option<T>>, i: u32) -> Option<T> {
    if values.contains_key(i) {
        values[i]
    } else {
        None
    }
}

/// An unordered collection of distinct items, stored at positions `0 .. size` of a
/// dictionary.
pub struct List<T> {
    values: Mapping<u32, Option<T>>,
    length: u32,
}

impl<T: StorageKey + Copy> List<T> {
    /// Well-formed: the positions below the length hold items, the others hold none,
    /// and no item is held twice.
    pub closed spec fn wf(&self) -> bool {
        &&& self.values.wf()
        &&& forall|i: u32| i < self.length ==> #[trigger] item_at(self.values.contents(), i) is Some
        &&& forall|i: u32| i >= self.length ==> #[trigger] item_at(self.values.contents(), i) is None
        &&& self.items().no_duplicates()
    }

    /// The items of a well-formed list are distinct.
    pub proof fn lemma_items_distinct(&self)
        requires
            self.wf(),
        ensures
            self.items().no_duplicates(),
    {
    }

    /// The items, by position.
    pub closed spec fn items(&self) -> Seq<T> {
        Seq::new(self.length as nat, |i: int| item_at(self.values.contents(), i as u32)->0)
    }

    pub closed spec fn name(&self) -> Seq<char> {
        self.values.name()
    }

    /// Creates an empty list stored under `name`.
    pub fn new(name: &str) -> (list: Self)
        ensures
            list.wf(),
            list.items() == Seq::<T>::empty(),
            list.name() == name@,
    {
        let list = List { values: Mapping::new(name.to_owned()), length: 0 };
        assert(list.items() =~= Seq::<T>::empty());
        list
    }

    /// Empties the list.
    pub fn init(&mut self)
        requires
            old(self).wf(),
        ensures
            final(self).wf(),
            final(self).items() == Seq::<T>::empty(),
            final(self).name() == old(self).name(),
    {
        let name = self.values.path().to_owned();
        self.values = Mapping::new(name);
        self.length = 0;
        assert(self.items() =~= Seq::<T>::empty());
    }

    /// Adds `item` unless it is already on the list.
    pub fn add(&mut self, item: T)
        requires
            old(self).wf(),
            !old(self).items().contains(item) ==> old(self).items().len() < u32::MAX,
        ensures
            final(self).wf(),
            final(self).name() == old(self).name(),
            final(self).items() == list_added(old(self).items(), item),
    {
        if !self.contains(&item) {
            let length = self.length;
            let ghost pre = *self;
            self.values.set(&length, Some(item));
            self.length = length + 1;
            assert forall|i: u32| i < self.length implies #[trigger] item_at(self.values.contents(), i) is Some by {
                if i < length {
                    assert(item_at(pre.values.contents(), i) is Some);
                }
            }
            assert forall|i: u32| i >= self.length implies #[trigger] item_at(self.values.contents(), i) is None by {
                assert(item_at(pre.values.contents(), i) is None);
            }
            assert forall|i: int| 0 <= i < length implies #[trigger] self.items()[i] == pre.items()[i] by {
                assert(item_at(pre.values.contents(), i as u32) is Some);
            }
            assert(self.items() =~= pre.items().push(item));
        }
    }

    /// Removes `item` if it is on the list; the last item takes its position.
    pub fn remove(&mut self, item: T)
        requires
            old(self).wf(),
        ensures
            final(self).wf(),
            final(self).name() == old(self).name(),
            final(self).items() == list_removed(old(self).items(), item),
    {
        let length = self.length;
        let ghost pre = *self;
        let (is_removed, item_index) = self.remove_item(&item);
        if !is_removed {
            return;
        }
        let ghost mid = *self;
        let last_index = length - 1;
        self.length = last_index;
        if item_index != last_index {
            self.move_item(last_index, item_index);
        }
        proof {
            let s = pre.items();
            let idx = item_index as int;
            assert(s.index_of(item) == idx);
            let r = swap_remove(s, idx);
            assert forall|i: u32| i < self.length implies #[trigger] item_at(self.values.contents(), i) is Some by {
                assert(item_at(pre.values.contents(), i) is Some);
                assert(item_at(pre.values.contents(), last_index) is Some);
            }
            assert forall|i: u32| i >= self.length implies #[trigger] item_at(self.values.contents(), i) is None by {
                if i > last_index {
                    assert(item_at(pre.values.contents(), i) is None);
                }
            }
            assert forall|i: int| 0 <= i < last_index implies #[trigger] self.items()[i] == r[i] by {
                assert(item_at(pre.values.contents(), i as u32) is Some);
            }
            assert(self.items() =~= r);
            assert forall|i: int, j: int|
                0 <= i < r.len() && 0 <= j < r.len() && i != j implies r[i] != r[j] by {
                if i == idx {
                    assert(s[i] != s[j] || j == s.len() - 1);
                } else if j == idx {
                    assert(s[i] != s[last_index as int]);
                } else {
                    assert(s[i] != s[j]);
                }
            }
        }
    }

    /// Finds `item` and clears its position.
    fn remove_item(&mut self, item: &T) -> (result: (bool, u32))
        requires
            old(self).wf(),
        ensures
            final(self).length == old(self).length,
            final(self).values.wf(),
            final(self).values.name() == old(self).values.name(),
            result.0 == old(self).items().contains(*item),
            result.0 ==> {
                &&& result.1 < old(self).length
                &&& old(self).items()[result.1 as int] == *item
                &&& final(self).values.contents() == old(self).values.contents().insert(
                    result.1,
                    None,
                )
            },
            !result.0 ==> final(self).values.contents() == old(self).values.contents(),
    {
        let length = self.length;
        let mut idx: u32 = 0;
        while idx < length
            invariant
                *self == *old(self),
                old(self).wf(),
                length == self.length,
                idx <= length,
                forall|j: int| 0 <= j < idx ==> #[trigger] self.items()[j] != *item,
            decreases length - idx,
        {
            proof {
                assert(item_at(self.values.contents(), idx) is Some);
            }
            if let Some(value) = self.values.get(&idx) {
                if let Some(v) = value {
                    if v.key_eq(item) {
                        assert(self.items()[idx as int] == *item);
                        self.values.set(&idx, None);
                        return (true, idx);
                    }
                }
            }
            idx = idx + 1;
        }
        (false, 0)
    }

    /// Moves the item at `from` to `to`, leaving `from` empty.
    fn move_item(&mut self, from: u32, to: u32)
        requires
            old(self).values.wf(),
            from != to,
        ensures
            final(self).length == old(self).length,
            final(self).values.wf(),
            final(self).values.name() == old(self).values.name(),
            final(self).values.contents() == old(self).values.contents().insert(
                to,
                item_at(old(self).values.contents(), from),
            ).insert(from, None),
    {
        let value = match self.values.get(&from) {
            Some(v) => v,
            None => None,
        };
        self.values.set(&to, value);
        self.values.set(&from, None);
    }

    /// Whether `item` is on the list.
    pub fn contains(&self, item: &T) -> (found: bool)
        requires
            self.wf(),
        ensures
            found == self.items().contains(*item),
    {
        let length = self.length;
        let mut idx: u32 = 0;
        while idx < length
            invariant
                self.wf(),
                length == self.length,
                idx <= length,
                forall|j: int| 0 <= j < idx ==> #[trigger] self.items()[j] != *item,
            decreases length - idx,
        {
            proof {
                assert(item_at(self.values.contents(), idx) is Some);
            }
            if let Some(value) = self.values.get(&idx) {
                if let Some(v) = value {
                    if v.key_eq(item) {
                        assert(self.items()[idx as int] == *item);
                        return true;
                    }
                }
            }
            idx = idx + 1;
        }
        false
    }

    /// The item at position `index`; fails with `ValueNotAvailable` past the end (on an
    /// empty list, for every index).
    pub fn get(&self, index: u32) -> (item: Result<T, Error>)
        requires
            self.wf(),
        ensures
            match item {
                Ok(t) => index < self.items().len() && t == self.items()[index as int],
                Err(e) => index >= self.items().len() && e == Error::ValueNotAvailable,
            },
    {
        if index >= self.length {
            return Err(Error::ValueNotAvailable);
        }
        proof {
            assert(item_at(self.values.contents(), index) is Some);
        }
        match self.values.get(&index) {
            Some(Some(t)) => Ok(t),
            _ => Err(Error::ValueNotAvailable),
        }
    }

    /// The number of items.
    pub fn size(&self) -> (size: u32)
        requires
            self.wf(),
        ensures
            size == self.items().len(),
    {
        self.length
    }
}

/// Adding an item makes it a member and keeps every other member; the items stay
/// distinct.
pub proof fn law_list_add_membership<T>(s: Seq<T>, item: T)
    requires
        s.no_duplicates(),
    ensures
        list_added(s, item).to_set() == s.to_set().insert(item),
        list_added(s, item).no_duplicates(),
{
    let r = list_added(s, item);
    if !s.contains(item) {
        assert forall|x: T| r.contains(x) <==> s.contains(x) || x == item by {
            if s.contains(x) {
                let i = choose|i: int| 0 <= i < s.len() && s[i] == x;
                assert(r[i] == x);
            }
            if x == item {
                assert(r[s.len() as int] == item);
            }
        }
    }
    assert(r.to_set() =~= s.to_set().insert(item));
}

/// Removing an item takes it out and keeps every other member; the items stay
/// distinct, and the list shrinks by one exactly when the item was a member.
pub proof fn law_list_remove_membership<T>(s: Seq<T>, item: T)
    requires
        s.no_duplicates(),
    ensures
        list_removed(s, item).to_set() == s.to_set().remove(item),
        list_removed(s, item).no_duplicates(),
        list_removed(s, item).len() == if s.contains(item) {
            s.len() - 1
        } else {
            s.len() as int
        },
{
    let r = list_removed(s, item);
    if s.contains(item) {
        let idx = s.index_of(item);
        let last = s.len() - 1;
        assert forall|x: T| r.contains(x) <==> s.contains(x) && x != item by {
            if s.contains(x) && x != item {
                let i = choose|i: int| 0 <= i < s.len() && s[i] == x;
                if i == last {
                    assert(r[idx] == x);
                } else {
                    assert(r[i] == x);
                }
            }
            if r.contains(x) {
                let i = choose|i: int| 0 <= i < r.len() && r[i] == x;
                if i == idx {
                    assert(s[last] == x);
                } else {
                    assert(s[i] == x);
                }
            }
        }
        assert forall|i: int, j: int|
            0 <= i < r.len() && 0 <= j < r.len() && i != j implies r[i] != r[j] by {
            if i == idx {
                assert(s[last] != s[j]);
            } else if j == idx {
                assert(s[i] != s[last]);
            } else {
                assert(s[i] != s[j]);
            }
        }
    }
    assert(r.to_set() =~= s.to_set().remove(item));
}

/// Adding an item that is not on the list and removing it again gives back the list
/// as it was.
pub proof fn law_list_add_then_remove<T>(s: Seq<T>, item: T)
    requires
        !s.contains(item),
    ensures
        list_removed(list_added(s, item), item) == s,
{
    let a = s.push(item);
    assert(a[s.len() as int] == item);
    assert(a.contains(item));
    let idx = a.index_of(item);
    assert(idx == s.len()) by {
        if idx != s.len() {
            assert(s[idx] == item);
        }
    }
    assert(swap_remove(a, idx) =~= s);
}

} // verus!
