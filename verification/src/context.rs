//! A scope-bound context registry: an association from keys to values with
//! nearest-provider-wins shadowing.
//!
//! Scopes nest like a component tree's subtrees. `provide` binds a key in the
//! current scope; `require` walks from the current scope outward and returns
//! the nearest binding, failing with [`ReactiveError::MissingProvider`] when
//! none is found before the root. Tearing a scope down discards exactly the
//! bindings provided in it. The registry is an owned value, not a process-wide
//! singleton, so independent instances never interfere.

use vstd::prelude::*;
use crate::ReactiveError;

verus! {

/// The mathematical model of a registry: the bindings in the order provided,
/// and for each open scope the number of bindings that existed when it was
/// entered.
pub struct RegistryView<V> {
    pub entries: Seq<(u64, V)>,
    pub scopes: Seq<usize>,
}

/// The nearest binding of `key`: the last one provided, or `None` before the
/// root is reached.
pub open spec fn lookup<V>(entries: Seq<(u64, V)>, key: u64) -> Option<V>
    decreases entries.len(),
{
    if entries.len() == 0 {
        None
    } else if entries.last().0 == key {
        Some(entries.last().1)
    } else {
        lookup(entries.drop_last(), key)
    }
}

/// The position of the nearest binding of `key`, or `-1` when there is none.
pub open spec fn last_index_of<V>(entries: Seq<(u64, V)>, key: u64) -> int
    decreases entries.len(),
{
    if entries.len() == 0 {
        -1
    } else if entries.last().0 == key {
        entries.len() - 1
    } else {
        last_index_of(entries.drop_last(), key)
    }
}

/// A scope-bound registry of context values of type `V`.
pub struct ContextRegistry<V> {
    entries: Vec<(u64, V)>,
    scope_starts: Vec<usize>,
}

impl<V> View for ContextRegistry<V> {
    type V = RegistryView<V>;

    closed spec fn view(&self) -> RegistryView<V> {
        RegistryView { entries: self.entries@, scopes: self.scope_starts@ }
    }
}

impl<V> ContextRegistry<V> {
    /// Scope marks never pass the end of the bindings and never decrease:
    /// an inner scope begins no earlier than an outer one. Every registry the
    /// public operations can build satisfies this.
    pub open spec fn wf(self) -> bool {
        &&& (forall|i: int| 0 <= i < self@.scopes.len() ==> self@.scopes[i] <= self@.entries.len())
        &&& (forall|i: int, j: int|
            0 <= i <= j < self@.scopes.len() ==> self@.scopes[i] <= self@.scopes[j])
    }

    /// How many scopes below the root are open.
    pub fn depth(&self) -> (d: usize)
        ensures
            d == self@.scopes.len(),
    {
        self.scope_starts.len()
    }

    /// Creates a registry with no bindings, at the root scope.
    pub fn new() -> (reg: Self)
        ensures
            reg@.entries == Seq::<(u64, V)>::empty(),
            reg@.scopes == Seq::<usize>::empty(),
            reg.wf(),
    {
        ContextRegistry { entries: Vec::new(), scope_starts: Vec::new() }
    }

    /// Binds `key` to `value` in the current scope, shadowing any earlier
    /// binding of the same key until this scope is torn down.
    pub fn provide(&mut self, key: u64, value: V)
        requires
            old(self).wf(),
        ensures
            final(self)@.entries == old(self)@.entries.push((key, value)),
            final(self)@.scopes == old(self)@.scopes,
            final(self).wf(),
    {
        self.entries.push((key, value));
        proof {
            assert forall|i: int|
                0 <= i < self@.scopes.len() implies self@.scopes[i] <= self@.entries.len() by {
                assert(old(self).wf());
                assert(old(self)@.scopes[i] <= old(self)@.entries.len());
            }
        }
    }

    /// The nearest binding of `key`, or `None` without an error when there is
    /// none.
    #[verifier::loop_isolation(false)]
    pub fn try_get(&self, key: u64) -> (r: Option<&V>)
        ensures
            match r {
                Some(v) => lookup(self@.entries, key) == Some(*v),
                None => lookup(self@.entries, key) is None,
            },
    {
        proof {
            assert(self@.entries.take(self.entries.len() as int) =~= self@.entries);
        }
        let mut i: usize = self.entries.len();
        while i > 0
            invariant
                i <= self.entries.len(),
                lookup(self@.entries, key) == lookup(self@.entries.take(i as int), key),
            decreases i,
        {
            i = i - 1;
            proof {
                assert(self@.entries.take(i + 1 as int).last() == self@.entries[i as int]);
                assert(self@.entries.take(i + 1 as int).drop_last() =~= self@.entries.take(
                    i as int,
                ));
            }
            if self.entries[i].0 == key {
                return Some(&self.entries[i].1);
            }
        }
        None
    }

    /// The nearest binding of `key`; fails with
    /// [`ReactiveError::MissingProvider`] exactly when no scope on the path
    /// to the root provides the key.
    pub fn require(&self, key: u64) -> (r: Result<&V, ReactiveError>)
        ensures
            match r {
                Ok(v) => lookup(self@.entries, key) == Some(*v),
                Err(e) => lookup(self@.entries, key) is None && e
                    == ReactiveError::MissingProvider,
            },
    {
        match self.try_get(key) {
            Some(v) => Ok(v),
            None => Err(ReactiveError::MissingProvider),
        }
    }

    /// A mutable borrow of the nearest binding of `key`, to mutate the shared
    /// value in place: the registry afterwards holds whatever the caller left
    /// in the borrow, at the same position, with every other binding and the
    /// scopes untouched. The caller must know the binding exists — the
    /// fallible lookups are [`ContextRegistry::try_get`] and
    /// [`ContextRegistry::require`].
    #[verifier::loop_isolation(false)]
    pub fn require_mut(&mut self, key: u64) -> (v: &mut V)
        requires
            lookup(old(self)@.entries, key) is Some,
        ensures
            Some(*v) == lookup(old(self)@.entries, key),
            final(self)@.entries == old(self)@.entries.update(
                last_index_of(old(self)@.entries, key),
                (key, *final(v)),
            ),
            final(self)@.scopes == old(self)@.scopes,
            old(self).wf() ==> final(self).wf(),
    {
        proof {
            assert(self@.entries.take(self.entries.len() as int) =~= self@.entries);
        }
        let mut i: usize = self.entries.len();
        while i > 0
            invariant
                *self == *old(self),
                i <= self.entries.len(),
                lookup(self@.entries, key) == lookup(self@.entries.take(i as int), key),
                last_index_of(self@.entries, key) == last_index_of(
                    self@.entries.take(i as int),
                    key,
                ),
            decreases i,
        {
            i = i - 1;
            proof {
                assert(self@.entries.take(i + 1 as int).last() == self@.entries[i as int]);
                assert(self@.entries.take(i + 1 as int).drop_last() =~= self@.entries.take(
                    i as int,
                ));
            }
            if self.entries[i].0 == key {
                proof {
                    assert(last_index_of(self@.entries, key) == i as int);
                    assert(lookup(self@.entries, key) == Some(self@.entries[i as int].1));
                }
                return &mut self.entries[i].1;
            }
        }
        proof {
            assert(self@.entries.take(0) =~= Seq::<(u64, V)>::empty());
            assert(lookup(self@.entries, key) is None);
        }
        vstd::pervasive::unreached()
    }

    /// Enters a scope: bindings provided from now on last until the matching
    /// [`ContextRegistry::teardown_scope`].
    pub fn mount_scope(&mut self)
        requires
            old(self).wf(),
        ensures
            final(self)@.entries == old(self)@.entries,
            final(self)@.scopes == old(self)@.scopes.push(old(self)@.entries.len() as usize),
            final(self).wf(),
    {
        let mark = self.entries.len();
        self.scope_starts.push(mark);
        proof {
            assert forall|i: int, j: int|
                0 <= i <= j < self@.scopes.len() implies self@.scopes[i] <= self@.scopes[j] by {
                assert(old(self).wf());
                if j < old(self)@.scopes.len() {
                    assert(old(self)@.scopes[i] <= old(self)@.scopes[j]);
                } else if i < old(self)@.scopes.len() {
                    assert(old(self)@.scopes[i] <= old(self)@.entries.len());
                }
            }
        }
    }

    /// Tears the innermost scope down, discarding exactly the bindings it
    /// provided; bindings of the enclosing scopes — and what `require`
    /// returned before the scope was entered — are untouched.
    pub fn teardown_scope(&mut self)
        requires
            old(self).wf(),
            old(self)@.scopes.len() > 0,
        ensures
            final(self)@.entries == old(self)@.entries.take(old(self)@.scopes.last() as int),
            final(self)@.scopes == old(self)@.scopes.drop_last(),
            final(self).wf(),
    {
        let mark = self.scope_starts[self.scope_starts.len() - 1];
        self.scope_starts.pop();
        self.entries.truncate(mark);
    }
}

/// Nearest-provider-wins: a newly provided binding is what `lookup` returns
/// for its key, and bindings of other keys are unaffected by it.
pub proof fn lemma_provide_shadows<V>(entries: Seq<(u64, V)>, key: u64, value: V)
    ensures
        lookup(entries.push((key, value)), key) == Some(value),
        forall|other: u64|
            other != key ==> #[trigger] lookup(entries.push((key, value)), other) == lookup(
                entries,
                other,
            ),
{
    let grown = entries.push((key, value));
    assert(grown.last() == (key, value));
    assert(grown.drop_last() =~= entries);
}

/// Scope shadowing, end to end: where `require` finds `a`, a child scope
/// providing `b` for the same key makes `require` find `b` inside the child,
/// and tearing the child scope down — which keeps exactly the bindings that
/// existed when it was entered — makes `require` find `a` again.
pub proof fn lemma_scope_shadowing<V>(entries: Seq<(u64, V)>, key: u64, a: V, b: V)
    requires
        lookup(entries, key) == Some(a),
    ensures
        lookup(entries.push((key, b)), key) == Some(b),
        entries.push((key, b)).take(entries.len() as int) == entries,
        lookup(entries.push((key, b)).take(entries.len() as int), key) == Some(a),
{
    lemma_provide_shadows(entries, key, b);
    assert(entries.push((key, b)).take(entries.len() as int) =~= entries);
}

} // verus!
