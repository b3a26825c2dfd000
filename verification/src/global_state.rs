//! The shared application state and the two lenses that slice it.
//!
//! One `SignalCell<GlobalState>` holds the whole state; independent consumers
//! reach the counter and the name through [`CountLens`] and [`NameLens`],
//! which are proven disjoint: writing through one never changes what the
//! other reads.

use vstd::prelude::*;
use crate::lens::Lens;
use crate::lens::lens_disjoint;

verus! {

/// The whole shared state: a counter and a name.
#[derive(Clone, Debug)]
pub struct GlobalState {
    pub count: u32,
    pub name: String,
}

impl Default for GlobalState {
    /// The initial shared state: a zero counter and an empty name.
    fn default() -> (s: Self)
        ensures
            s.count == 0,
            s.name@ == Seq::<char>::empty(),
    {
        GlobalState { count: 0, name: String::new() }
    }
}

/// The lens onto the `count` field of [`GlobalState`].
pub struct CountLens;

/// The lens onto the `name` field of [`GlobalState`].
pub struct NameLens;

impl Lens<GlobalState, u32> for CountLens {
    open spec fn spec_get(&self, s: GlobalState) -> u32 {
        s.count
    }

    open spec fn spec_set(&self, s: GlobalState, v: u32) -> GlobalState {
        GlobalState { count: v, ..s }
    }

    fn get<'a>(&self, s: &'a GlobalState) -> (r: &'a u32) {
        &s.count
    }

    fn set(&self, s: &mut GlobalState, v: u32) {
        s.count = v;
    }

    proof fn lemma_get_set(&self, s: GlobalState, v: u32) {
    }

    proof fn lemma_set_get(&self, s: GlobalState) {
    }
}

impl Lens<GlobalState, String> for NameLens {
    open spec fn spec_get(&self, s: GlobalState) -> String {
        s.name
    }

    open spec fn spec_set(&self, s: GlobalState, v: String) -> GlobalState {
        GlobalState { name: v, ..s }
    }

    fn get<'a>(&self, s: &'a GlobalState) -> (r: &'a String) {
        &s.name
    }

    fn set(&self, s: &mut GlobalState, v: String) {
        s.name = v;
    }

    proof fn lemma_get_set(&self, s: GlobalState, v: String) {
    }

    proof fn lemma_set_get(&self, s: GlobalState) {
    }
}

/// The two slices of the shared state are independent: a write through the
/// counter lens never changes the name, and a write through the name lens
/// never changes the counter.
pub proof fn lemma_count_name_disjoint()
    ensures
        lens_disjoint::<GlobalState, u32, String, CountLens, NameLens>(CountLens, NameLens),
        lens_disjoint::<GlobalState, String, u32, NameLens, CountLens>(NameLens, CountLens),
{
    assert forall|s: GlobalState, v: u32|
        NameLens.spec_get(#[trigger] CountLens.spec_set(s, v)) == NameLens.spec_get(s) by {}
    assert forall|s: GlobalState, v: String|
        CountLens.spec_get(#[trigger] NameLens.spec_set(s, v)) == CountLens.spec_get(s) by {}
}

} // verus!
