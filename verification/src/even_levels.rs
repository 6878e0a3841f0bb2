//! Division trees with an even number of levels on every branch.
use vstd::prelude::*;
use crate::traits::Producer;

verus! {

/// Asks for every branch of the division tree of `base` to have an even
/// number of levels.
pub struct EvenLevels<I> {
    pub base: I,
}

impl<P: Producer> EvenLevels<P> {
    /// The producer that applies the policy: it starts at an even level.
    pub fn producer(self) -> (r: crate::adaptors::even_levels::EvenLevels<P>)
        ensures
            r.base == self.base,
            r.counter,
    {
        crate::adaptors::even_levels::EvenLevels::new(self.base)
    }
}

} // verus!
