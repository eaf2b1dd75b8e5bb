use vstd::prelude::*;

verus! {

/// A value that can serve as a dictionary key: it is copied freely and compared
/// for equality by an executable test that agrees with mathematical equality.
pub trait StorageKey: Sized {
    fn key_eq(&self, other: &Self) -> (same: bool)
        ensures
            same == (*self == *other),
    ;
}

impl StorageKey for u32 {
    fn key_eq(&self, other: &Self) -> (same: bool) {
        *self == *other
    }
}

impl StorageKey for u64 {
    fn key_eq(&self, other: &Self) -> (same: bool) {
        *self == *other
    }
}

impl<A: StorageKey, B: StorageKey> StorageKey for (A, B) {
    fn key_eq(&self, other: &Self) -> (same: bool) {
        self.0.key_eq(&other.0) && self.1.key_eq(&other.1)
    }
}

impl<A: StorageKey, B: StorageKey, C: StorageKey> StorageKey for (A, B, C) {
    fn key_eq(&self, other: &Self) -> (same: bool) {
        self.0.key_eq(&other.0) && self.1.key_eq(&other.1) && self.2.key_eq(&other.2)
    }
}

} // verus!
