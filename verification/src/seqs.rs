//! Facts about `Seq::filter` that the store's removal operations rest on.
//!
//! Both `SignalCell::unsubscribe` and `KeyedList::remove_by_key` are specified
//! with `Seq::filter` but implemented with a single `Vec::remove`, which is
//! sound because the element removed is the only one failing the predicate.

use vstd::prelude::*;

verus! {

/// Filtering a sequence whose elements all satisfy the predicate returns the
/// sequence itself.
pub proof fn lemma_filter_all_true<A>(s: Seq<A>, pred: spec_fn(A) -> bool)
    requires
        forall|j: int| 0 <= j < s.len() ==> pred(s[j]),
    ensures
        s.filter(pred) == s,
    decreases s.len(),
{
    reveal(Seq::filter);
    if s.len() > 0 {
        lemma_filter_all_true(s.drop_last(), pred);
        assert(s.drop_last().filter(pred).push(s.last()) =~= s);
    } else {
        assert(s.filter(pred) =~= s);
    }
}

/// When exactly the element at `i` fails the predicate, filtering equals
/// removing that element.
pub proof fn lemma_filter_unique_remove<A>(s: Seq<A>, pred: spec_fn(A) -> bool, i: int)
    requires
        0 <= i < s.len(),
        !pred(s[i]),
        forall|j: int| 0 <= j < s.len() && j != i ==> pred(s[j]),
    ensures
        s.filter(pred) == s.remove(i),
    decreases s.len(),
{
    reveal(Seq::filter);
    if i == s.len() - 1 {
        lemma_filter_all_true(s.drop_last(), pred);
        assert(s.remove(i) =~= s.drop_last());
    } else {
        lemma_filter_unique_remove(s.drop_last(), pred, i);
        assert(s.remove(i) =~= s.drop_last().remove(i).push(s.last()));
    }
}

} // verus!
