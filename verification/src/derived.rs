//! Derived signals: memoized pure recomputation over a source signal.
//!
//! A derived signal stores no value of its own beyond a cache. A read
//! recomputes only when the source's version has moved past the cached one —
//! recomputation is lazy and pull-based, and the cache is returned untouched
//! for as long as the source has not committed a new write.
//!
//! A derived signal cannot observe itself mid-computation: it recomputes
//! through a shared borrow of its source cell, and it is not itself a cell,
//! so a dependency cycle is unbuildable rather than a run-time error.

use vstd::prelude::*;
use crate::compute::Compute;
use crate::signal::SignalCell;
use crate::signal::SignalView;
use crate::signal::written;

verus! {

/// A read-only memoized signal derived from one source cell.
pub struct Derived<T, F> {
    f: F,
    cached: Option<T>,
    cached_version: u64,
}

impl<T, F> Derived<T, F> {
    /// The memoized value, if any read has committed one.
    pub closed spec fn memo(self) -> Option<T> {
        self.cached
    }

    /// The source version the memoized value was computed at.
    pub closed spec fn memo_version(self) -> u64 {
        self.cached_version
    }

    /// The pure function this signal derives with.
    pub closed spec fn func(self) -> F {
        self.f
    }

    /// The derived signal is in sync with a source: its memo is not from the
    /// source's future, and a memo at the source's current version holds
    /// exactly the function of the source's current value. A source write
    /// moves the version forward and so invalidates the memo rather than
    /// breaking this relation.
    pub open spec fn in_sync<S>(self, src: SignalView<S>) -> bool where F: Compute<S, T> {
        &&& self.memo_version() <= src.version
        &&& (self.memo() is Some && self.memo_version() == src.version ==> self.memo() == Some(
            self.func().value(src.value),
        ))
    }

    /// Creates a derived signal with nothing memoized yet. It is in sync
    /// with every source.
    pub fn new(f: F) -> (d: Self)
        ensures
            d.func() == f,
            d.memo() is None,
            d.memo_version() == 0,
    {
        Derived { f, cached: None, cached_version: 0 }
    }

    /// Brings the memo up to date with the source: recomputes only if the
    /// source has committed a write since the memo was taken, else returns
    /// without invoking the function.
    pub fn refresh<S>(&mut self, src: &SignalCell<S>) where F: Compute<S, T>
        requires
            old(self).in_sync(src@),
            old(self).func().pre(src@.value),
        ensures
            final(self).func() == old(self).func(),
            final(self).memo() == Some(old(self).func().value(src@.value)),
            final(self).memo_version() == src@.version,
            final(self).in_sync(src@),
    {
        let current = src.version();
        let stale = match &self.cached {
            Some(_) => self.cached_version != current,
            None => true,
        };
        if stale {
            let v = self.f.compute(src.read());
            self.cached = Some(v);
            self.cached_version = current;
        }
    }

    /// The memoized value, without consulting the source.
    pub fn peek(&self) -> (r: &T)
        requires
            self.memo() is Some,
        ensures
            self.memo() == Some(*r),
    {
        self.cached.as_ref().unwrap()
    }

    /// Reads the derived value: refreshes the memo if a dependency write
    /// invalidated it, and returns it. The result is the function evaluated
    /// fresh on the source's current value, whether or not a recomputation
    /// actually ran.
    pub fn read<S>(&mut self, src: &SignalCell<S>) -> (r: T) where T: Copy, F: Compute<S, T>
        requires
            old(self).in_sync(src@),
            old(self).func().pre(src@.value),
        ensures
            r == old(self).func().value(src@.value),
            final(self).func() == old(self).func(),
            final(self).memo() == Some(old(self).func().value(src@.value)),
            final(self).memo_version() == src@.version,
            final(self).in_sync(src@),
    {
        self.refresh(src);
        *self.peek()
    }
}

/// A source write leaves every derived signal that was in sync with it in
/// sync: the memo is invalidated by the version moving forward, never served
/// against a changed value.
pub proof fn lemma_write_keeps_sync<S, T, F: Compute<S, T>>(
    d: Derived<T, F>,
    s: SignalView<S>,
    v: S,
)
    requires
        d.in_sync(s),
        s.version < u64::MAX,
    ensures
        d.in_sync(written(s, v)),
{
}

/// Referential transparency of the cache: whenever the memo is current, it
/// equals the derived function evaluated fresh on the source's current value
/// — after any sequence of dependency writes and reads.
pub proof fn lemma_memo_is_fresh<S, T, F: Compute<S, T>>(d: Derived<T, F>, s: SignalView<S>)
    requires
        d.in_sync(s),
        d.memo() is Some,
        d.memo_version() == s.version,
    ensures
        d.memo() == Some(d.func().value(s.value)),
{
}

} // verus!
