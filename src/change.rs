use vstd::prelude::*;
use vstd::std_specs::cmp::PartialEqSpec;

verus! {

/// A value cell that reports whether an assignment actually changed it.
#[derive(Clone)]
pub struct ChangeTrackedValue<T> {
    pub value: T,
}

impl<T: PartialEq> ChangeTrackedValue<T> {
    pub fn new(value: T) -> (r: Self)
        ensures
            r.value == value,
    {
        Self { value }
    }

    /// Stores `value` when it differs from the held one; returns whether it did.
    pub fn set(&mut self, value: T) -> (changed: bool)
        ensures
            changed ==> final(self).value == value,
            !changed ==> final(self).value == old(self).value,
            T::obeys_eq_spec() ==> (changed == !old(self).value.eq_spec(&value)),
    {
        if self.value != value {
            self.value = value;
            true
        } else {
            false
        }
    }
}

} // verus!
