use vstd::prelude::*;

verus! {

/// Hands out consecutive identifiers from a stored counter.
pub struct SequenceGenerator {
    value: Option<u32>,
}

impl SequenceGenerator {
    /// The stored counter: `None` until a value was stored.
    pub closed spec fn stored(&self) -> Option<u32> {
        self.value
    }

    /// A generator whose counter holds no value yet.
    pub fn new() -> (generator: Self)
        ensures
            generator.stored() == None::<u32>,
    {
        SequenceGenerator { value: None }
    }

    /// The stored value, or 0 when none is stored.
    pub fn get_current_value(&self) -> (current: u32)
        ensures
            current == match self.stored() {
                Some(v) => v,
                None => 0,
            },
    {
        match self.value {
            Some(v) => v,
            None => 0,
        }
    }

    /// With no stored value, returns 0 and stores nothing; otherwise stores the value
    /// plus one and returns it.
    pub fn next_value(&mut self) -> (next: u32)
        requires
            match old(self).stored() {
                Some(v) => v < u32::MAX,
                None => true,
            },
        ensures
            match old(self).stored() {
                None => next == 0 && final(self).stored() == None::<u32>,
                Some(v) => next == v + 1 && final(self).stored() == Some(next),
            },
    {
        match self.value {
            None => 0,
            Some(value) => {
                let next = value + 1;
                self.value = Some(next);
                next
            },
        }
    }
}

} // verus!
