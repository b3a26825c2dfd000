//! Lenses: paired getters and setters that project a component of a larger
//! state value, so that a slice of a shared signal behaves like an
//! independent signal.
//!
//! A lens never stores a copy of the component: reading delegates to the
//! getter on the container's current value, and writing rebuilds the
//! container through the setter, so the container stays the single source of
//! truth.

use vstd::prelude::*;
use crate::signal::SignalView;
use crate::signal::written;

verus! {

/// A getter/setter pair into a component of `S` of type `T`.
///
/// The two proof obligations are the lens laws: what was set is what is got,
/// and setting what is already there changes nothing. Every implementation
/// must prove them, so a slice built on any lens obeys them.
pub trait Lens<S, T> {
    /// What the getter returns on `s`.
    spec fn spec_get(&self, s: S) -> T;

    /// The container after writing `v` into `s`.
    spec fn spec_set(&self, s: S, v: T) -> S;

    /// Reads the component out of a borrowed container.
    fn get<'a>(&self, s: &'a S) -> (r: &'a T)
        ensures
            *r == self.spec_get(*s),
    ;

    /// Writes `v` into the component, leaving the rest of the container as
    /// the setter says — a structural update, never a partial overwrite of
    /// unrelated fields.
    fn set(&self, s: &mut S, v: T)
        ensures
            *final(s) == self.spec_set(*old(s), v),
    ;

    /// Lens law: reading after writing `v` yields `v`.
    proof fn lemma_get_set(&self, s: S, v: T)
        ensures
            self.spec_get(self.spec_set(s, v)) == v,
    ;

    /// Lens law: writing back what was read leaves the container unchanged.
    proof fn lemma_set_get(&self, s: S)
        ensures
            self.spec_set(s, self.spec_get(s)) == s,
    ;
}

/// Two lenses over the same container are disjoint when writing through the
/// first never changes what the second reads. Two lenses onto different
/// fields of a record are the typical case.
pub open spec fn lens_disjoint<S, T1, T2, L1: Lens<S, T1>, L2: Lens<S, T2>>(
    l1: L1,
    l2: L2,
) -> bool {
    forall|s: S, v: T1| l2.spec_get(#[trigger] l1.spec_set(s, v)) == l2.spec_get(s)
}

/// Writing through one of two disjoint lenses — which commits
/// `l1.spec_set(s.value, v)` into the container — does not change what the
/// other lens reads out of the container.
pub proof fn lemma_disjoint_write_preserves_read<S, T1, T2, L1: Lens<S, T1>, L2: Lens<S, T2>>(
    l1: L1,
    l2: L2,
    s: SignalView<S>,
    v: T1,
)
    requires
        lens_disjoint(l1, l2),
    ensures
        l2.spec_get(written(s, l1.spec_set(s.value, v)).value) == l2.spec_get(s.value),
{
    assert(written(s, l1.spec_set(s.value, v)).value == l1.spec_set(s.value, v));
}

} // verus!
