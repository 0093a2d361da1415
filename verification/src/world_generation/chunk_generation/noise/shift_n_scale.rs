//! Shifting and scaling of a noise source by whole numbers.

use vstd::prelude::*;

verus! {

/// A noise source whose values are first raised by `SHIFT` and then divided by `SCALE`.
pub struct ShiftNScale<T, const SCALE: u32, const SHIFT: u32> {
    pub noise: T,
}

impl<T, const SCALE: u32, const SHIFT: u32> ShiftNScale<T, SCALE, SHIFT> {
    pub fn new(source: T) -> (adapter: Self)
        ensures
            adapter.noise == source,
    {
        Self { noise: source }
    }

    /// What the source's values are raised by.
    pub fn shift(&self) -> (s: u32)
        ensures
            s == SHIFT,
    {
        SHIFT
    }

    /// What the raised values are divided by.
    pub fn scale(&self) -> (s: u32)
        ensures
            s == SCALE,
    {
        SCALE
    }
}

} // verus!
