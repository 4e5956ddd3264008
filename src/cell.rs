use vstd::prelude::*;

verus! {

/// A single-owner mutable storage location holding exactly one value.
///
/// Every mutation goes through an exclusive reference, so a `Cell` is never
/// observed from two places at once; the value it holds is its view.
pub struct Cell<T> {
    value: T,
}

impl<T> View for Cell<T> {
    type V = T;

    closed spec fn view(&self) -> T {
        self.value
    }
}

impl<T> Cell<T> {
    /// Creates a cell holding `value`.
    pub fn new(value: T) -> (c: Self)
        ensures
            c@ == value,
    {
        Cell { value }
    }

    /// Overwrites the stored value, discarding the previous one.
    pub fn set(&mut self, value: T)
        ensures
            final(self)@ == value,
    {
        self.value = value;
    }

    /// Returns a copy of the current value.
    pub fn get(&self) -> (r: T)
        where
            T: Copy,
        ensures
            r == self@,
    {
        self.value
    }
}

} // verus!
