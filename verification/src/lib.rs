//! A fine-grained reactive value store.
//!
//! The crate offers the building blocks a rendering layer needs to re-render
//! only affected views: mutable signal cells with subscriber notification
//! (`signal`), lazily memoized derived signals (`derived`), lenses that project
//! a field of a shared state object as an independent-looking signal (`lens`,
//! `global_state`), a scope-bound context registry with nearest-provider-wins
//! shadowing (`context`), and an ordered keyed list whose entries keep their
//! identity across inserts and removals (`keyed`).
//!
//! The store itself performs no I/O and mounts no views: a write returns the
//! subscriber tokens to notify, in subscription order, and the caller delivers
//! the notifications.

use vstd::prelude::*;

pub mod compute;
pub mod context;
pub mod derived;
pub mod global_state;
pub mod keyed;
pub mod lens;
pub mod seqs;
pub mod signal;

verus! {

/// The contract violations this store reports to its caller.
///
/// Both are surfaced synchronously by the operation that hits them; nothing is
/// retried. Two further misuses named by the design — a derived signal reading
/// itself during its own recomputation, and a read or write on a cell whose
/// owning scope is gone — cannot be expressed against this API: a derived
/// signal borrows its source cell by reference while it recomputes, and a cell
/// is an owned value that ends with its scope.
#[derive(Clone, Copy, Debug, PartialEq, Eq, Structural)]
pub enum ReactiveError {
    /// A context lookup found no provider for the key on the path to the root.
    MissingProvider,
    /// A keyed-list insert collided with an entry that already holds the key.
    DuplicateKey,
}

} // verus!
