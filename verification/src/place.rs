//! The slot mechanism: a caller-owned output cell that a visitor fills.

use vstd::prelude::*;

verus! {

/// A view of a caller-owned cell, absent or present, as the place that a
/// visitor writes the finished value into. The place holds the cell by
/// reference, so what is written goes into the caller's own memory.
pub struct Place<'a, T> {
    pub out: &'a mut Option<T>,
}

impl<'a, T> Place<'a, T> {
    /// The place over a cell. The cell keeps what it holds.
    pub fn new(out: &'a mut Option<T>) -> (place: Place<'a, T>)
        ensures
            *place.out == *old(out),
            *final(out) == *final(place.out),
    {
        Place { out }
    }

    /// Writes a value into the cell, over what it held.
    pub fn set(&mut self, value: T)
        ensures
            *final(self).out == Some(value),
            *final(final(self).out) == *final(old(self).out),
    {
        *self.out = Some(value);
    }
}

} // verus!
