//! Pure functions over signal values, stated as both a mathematical function
//! and an executable one.
//!
//! A [`Compute`] value is what a derived signal derives with and what an
//! updating write applies: because `compute` must return exactly `value`,
//! running it any number of times is observably the same as evaluating the
//! mathematical function once — implementations are referentially
//! transparent by contract.

use vstd::prelude::*;

verus! {

/// A pure function from a source value to a result.
///
/// `pre` admits the source values the computation is defined on (for
/// instance, bounds that keep arithmetic from overflowing).
pub trait Compute<S, T> {
    /// The source values the computation accepts.
    spec fn pre(&self, s: S) -> bool;

    /// The value the computation yields on `s`.
    spec fn value(&self, s: S) -> T;

    /// Computes `value` on a borrowed source value.
    fn compute(&self, s: &S) -> (r: T)
        requires
            self.pre(*s),
        ensures
            r == self.value(*s),
    ;
}

/// Doubles a counter: the derived value the demo pages feed their faster
/// progress bars.
pub struct Doubling;

impl Compute<u32, u32> for Doubling {
    open spec fn pre(&self, s: u32) -> bool {
        s <= u32::MAX / 2
    }

    open spec fn value(&self, s: u32) -> u32 {
        (2 * s) as u32
    }

    fn compute(&self, s: &u32) -> (r: u32) {
        2 * *s
    }
}

/// Adds one to a counter: the updater a counter button applies on a click.
pub struct Increment;

impl Compute<u32, u32> for Increment {
    open spec fn pre(&self, s: u32) -> bool {
        s < u32::MAX
    }

    open spec fn value(&self, s: u32) -> u32 {
        (s + 1) as u32
    }

    fn compute(&self, s: &u32) -> (r: u32) {
        *s + 1
    }
}

} // verus!
