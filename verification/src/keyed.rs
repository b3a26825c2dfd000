//! An ordered keyed list of per-entry signals.
//!
//! Each entry pairs a caller-chosen key with its own [`SignalCell`] and a
//! list-owned identity: a monotonic id that no reset of the caller's counters
//! can reuse. Inserting or removing one entry leaves every other entry —
//! cell, subscribers, version and id — untouched, which is the invariant a
//! reconciling renderer depends on to re-render only the row that changed.
//! Duplicate keys are rejected with [`ReactiveError::DuplicateKey`].

use vstd::prelude::*;
use crate::ReactiveError;
use crate::seqs::lemma_filter_all_true;
use crate::seqs::lemma_filter_unique_remove;
use crate::signal::SignalCell;
use crate::signal::SignalView;
use crate::signal::initial_view;
use crate::signal::subscribed;
use crate::signal::written;

verus! {

/// The model of one entry: its key, its stable identity, and its cell.
pub struct KeyedEntryView<V> {
    pub key: u64,
    pub id: u64,
    pub cell: SignalView<V>,
}

/// One entry of the list.
pub struct KeyedEntry<V> {
    key: u64,
    id: u64,
    cell: SignalCell<V>,
}

impl<V> View for KeyedEntry<V> {
    type V = KeyedEntryView<V>;

    closed spec fn view(&self) -> KeyedEntryView<V> {
        KeyedEntryView { key: self.key, id: self.id, cell: self.cell@ }
    }
}

/// The model of a freshly inserted entry.
pub open spec fn new_entry<V>(key: u64, id: u64, value: V) -> KeyedEntryView<V> {
    KeyedEntryView { key, id, cell: initial_view(value) }
}

/// Whether some entry holds `key`.
pub open spec fn has_key<V>(s: Seq<KeyedEntryView<V>>, key: u64) -> bool {
    exists|i: int| 0 <= i < s.len() && s[i].key == key
}

/// The position of the entry holding `key` (meaningful when keys are unique
/// and `has_key` holds).
pub open spec fn index_of_key<V>(s: Seq<KeyedEntryView<V>>, key: u64) -> int {
    choose|i: int| 0 <= i < s.len() && s[i].key == key
}

/// The predicate an entry must satisfy to survive the removal of `key`.
pub open spec fn outlives<V>(key: u64) -> spec_fn(KeyedEntryView<V>) -> bool {
    |e: KeyedEntryView<V>| e.key != key
}

/// The entries after removing `key`: the others, in their order, untouched.
pub open spec fn remaining<V>(s: Seq<KeyedEntryView<V>>, key: u64) -> Seq<KeyedEntryView<V>> {
    s.filter(outlives(key))
}

/// The entries after a write of `value` to the entry at `i`: only that
/// entry's cell moves, by a committed write.
pub open spec fn written_at<V>(s: Seq<KeyedEntryView<V>>, i: int, value: V) -> Seq<
    KeyedEntryView<V>,
> {
    s.update(i, KeyedEntryView { cell: written(s[i].cell, value), ..s[i] })
}

/// The entries after handing a subscriber token out at `i`: only that
/// entry's cell moves, by one subscription.
pub open spec fn subscribed_at<V>(s: Seq<KeyedEntryView<V>>, i: int) -> Seq<KeyedEntryView<V>> {
    s.update(i, KeyedEntryView { cell: subscribed(s[i].cell), ..s[i] })
}

/// Keys are unique, ids are unique, every id was drawn from the generator,
/// and every entry's cell is well formed; every list the public operations
/// can build satisfies this.
pub open spec fn entries_wf<V>(s: Seq<KeyedEntryView<V>>, next_id: u64) -> bool {
    &&& (forall|i: int, j: int| 0 <= i < j < s.len() ==> s[i].key != s[j].key)
    &&& (forall|i: int, j: int| 0 <= i < j < s.len() ==> s[i].id != s[j].id)
    &&& (forall|i: int| 0 <= i < s.len() ==> s[i].id < next_id)
    &&& (forall|i: int| 0 <= i < s.len() ==> (#[trigger] s[i].cell).wf())
}

/// An ordered collection of keyed per-entry signals, owning its own
/// monotonic id generator.
pub struct KeyedList<V> {
    entries: Vec<KeyedEntry<V>>,
    next_id: u64,
}

impl<V> KeyedList<V> {
    /// The entries, in list order.
    pub closed spec fn entries(self) -> Seq<KeyedEntryView<V>> {
        self.entries@.map_values(|e: KeyedEntry<V>| e@)
    }

    /// The next identity the list will hand out.
    pub closed spec fn next_id(self) -> u64 {
        self.next_id
    }

    /// See [`entries_wf`].
    pub open spec fn wf(self) -> bool {
        entries_wf(self.entries(), self.next_id())
    }

    /// Creates an empty list.
    pub fn new() -> (list: Self)
        ensures
            list.entries() == Seq::<KeyedEntryView<V>>::empty(),
            list.next_id() == 0,
            list.wf(),
    {
        let list = KeyedList { entries: Vec::new(), next_id: 0 };
        proof {
            assert(list.entries() =~= Seq::<KeyedEntryView<V>>::empty());
        }
        list
    }

    /// How many entries the list holds.
    pub fn len(&self) -> (n: usize)
        ensures
            n == self.entries().len(),
    {
        self.entries.len()
    }

    /// The position of the entry holding `key`, if any.
    #[verifier::loop_isolation(false)]
    fn find(&self, key: u64) -> (r: Option<usize>)
        ensures
            match r {
                Some(i) => i < self.entries().len() && self.entries()[i as int].key == key,
                None => !has_key(self.entries(), key),
            },
    {
        let mut i: usize = 0;
        while i < self.entries.len()
            invariant
                i <= self.entries.len(),
                forall|j: int| 0 <= j < i ==> self.entries()[j].key != key,
            decreases self.entries.len() - i,
        {
            if self.entries[i].key == key {
                return Some(i);
            }
            i = i + 1;
        }
        None
    }

    /// Appends an entry for `key` with its own fresh cell holding `initial`
    /// and a fresh identity, or rejects the insert with
    /// [`ReactiveError::DuplicateKey`] — leaving the list untouched — exactly
    /// when an entry already holds `key`.
    pub fn insert(&mut self, key: u64, initial: V) -> (r: Result<(), ReactiveError>)
        requires
            old(self).wf(),
            old(self).next_id() < u64::MAX,
        ensures
            final(self).wf(),
            match r {
                Ok(()) => !has_key(old(self).entries(), key)
                    && final(self).entries()
                    == old(self).entries().push(new_entry(key, old(self).next_id(), initial))
                    && final(self).next_id() == old(self).next_id() + 1,
                Err(e) => e == ReactiveError::DuplicateKey
                    && has_key(old(self).entries(), key)
                    && final(self).entries() == old(self).entries()
                    && final(self).next_id() == old(self).next_id(),
            },
    {
        match self.find(key) {
            Some(_) => Err(ReactiveError::DuplicateKey),
            None => {
                let id = self.next_id;
                self.next_id = self.next_id + 1;
                let entry = KeyedEntry { key, id, cell: SignalCell::new(initial) };
                proof {
                    assert(entry@ == new_entry(key, id, initial));
                }
                self.entries.push(entry);
                proof {
                    assert(self.entries() =~= old(self).entries().push(
                        new_entry(key, id, initial),
                    ));
                    assert forall|a: int, b: int|
                        0 <= a < b < self.entries().len() implies self.entries()[a].key
                        != self.entries()[b].key && self.entries()[a].id != self.entries()[b].id by {
                        if b < old(self).entries().len() {
                            assert(old(self).wf());
                        } else {
                            assert(old(self).entries()[a].id < id);
                        }
                    }
                    assert forall|a: int| 0 <= a < self.entries().len() implies (
                    #[trigger] self.entries()[a].cell).wf() by {
                        if a < old(self).entries().len() {
                            assert(old(self).wf());
                            assert(old(self).entries()[a].cell.wf());
                        } else {
                            assert(self.entries()[a] == new_entry(key, id, initial));
                        }
                    }
                }
                Ok(())
            },
        }
    }

    /// Removes the entry holding `key`, if any, and reports whether one was
    /// there. Every other entry — identity, cell, subscribers and order —
    /// is exactly as before, so a renderer keyed on identities re-renders
    /// nothing else.
    pub fn remove_by_key(&mut self, key: u64) -> (removed: bool)
        requires
            old(self).wf(),
        ensures
            final(self).wf(),
            removed == has_key(old(self).entries(), key),
            final(self).entries() == remaining(old(self).entries(), key),
            final(self).next_id() == old(self).next_id(),
    {
        let ghost pred = outlives::<V>(key);
        match self.find(key) {
            Some(i) => {
                proof {
                    assert(!pred(old(self).entries()[i as int]));
                    assert forall|j: int|
                        0 <= j < old(self).entries().len() && j != i as int implies pred(
                        old(self).entries()[j],
                    ) by {
                        assert(old(self).wf());
                    }
                }
                self.entries.remove(i);
                proof {
                    lemma_filter_unique_remove(old(self).entries(), pred, i as int);
                    assert(self.entries() =~= old(self).entries().remove(i as int));
                    assert(has_key(old(self).entries(), key));
                    assert forall|a: int, b: int|
                        0 <= a < b < self.entries().len() implies self.entries()[a].key
                        != self.entries()[b].key && self.entries()[a].id != self.entries()[b].id by {
                        assert(self.entries() == old(self).entries().remove(i as int));
                    }
                    assert forall|a: int| 0 <= a < self.entries().len() implies self.entries()[a].id
                        < self.next_id() by {
                        assert(self.entries() == old(self).entries().remove(i as int));
                    }
                    assert forall|a: int| 0 <= a < self.entries().len() implies (
                    #[trigger] self.entries()[a].cell).wf() by {
                        assert(self.entries() == old(self).entries().remove(i as int));
                        assert(old(self).wf());
                    }
                }
                true
            },
            None => {
                proof {
                    assert forall|j: int|
                        0 <= j < self.entries().len() implies pred(self.entries()[j]) by {}
                    lemma_filter_all_true(self.entries(), pred);
                }
                false
            },
        }
    }

    /// The identity of the entry holding `key`, if any: stable for the
    /// entry's whole lifetime, and never reused by this list.
    pub fn id_of_key(&self, key: u64) -> (r: Option<u64>)
        requires
            self.wf(),
        ensures
            match r {
                Some(id) => has_key(self.entries(), key) && self.entries()[index_of_key(
                    self.entries(),
                    key,
                )].id == id,
                None => !has_key(self.entries(), key),
            },
    {
        match self.find(key) {
            Some(i) => {
                proof {
                    let k = index_of_key(self.entries(), key);
                    assert(self.wf());
                    assert(self.entries()[i as int].key == key);
                    assert(0 <= k < self.entries().len() && self.entries()[k].key == key);
                    if k != i as int {
                        assert(false);
                    }
                }
                Some(self.entries[i].id)
            },
            None => None,
        }
    }

    /// Reads the value of the entry holding `key`, if any.
    pub fn read_by_key(&self, key: u64) -> (r: Option<&V>)
        requires
            self.wf(),
        ensures
            match r {
                Some(v) => has_key(self.entries(), key) && *v == self.entries()[index_of_key(
                    self.entries(),
                    key,
                )].cell.value,
                None => !has_key(self.entries(), key),
            },
    {
        match self.find(key) {
            Some(i) => {
                proof {
                    let k = index_of_key(self.entries(), key);
                    assert(self.wf());
                    assert(0 <= k < self.entries().len() && self.entries()[k].key == key);
                    if k != i as int {
                        assert(false);
                    }
                }
                Some(self.entries[i].cell.read())
            },
            None => None,
        }
    }

    /// Writes `value` into the cell of the entry holding `key` and returns
    /// its notification list — that cell's subscribers, in subscription
    /// order — or `None`, with the list untouched, when no entry holds the
    /// key. No other entry is changed.
    pub fn write_by_key(&mut self, key: u64, value: V) -> (r: Option<Vec<u64>>)
        requires
            old(self).wf(),
            forall|i: int|
                0 <= i < old(self).entries().len() && old(self).entries()[i].key == key
                    ==> old(self).entries()[i].cell.version < u64::MAX,
        ensures
            final(self).wf(),
            final(self).next_id() == old(self).next_id(),
            match r {
                Some(notify) => has_key(old(self).entries(), key) && final(self).entries()
                    == written_at(
                    old(self).entries(),
                    index_of_key(old(self).entries(), key),
                    value,
                ) && notify@ == old(self).entries()[index_of_key(
                    old(self).entries(),
                    key,
                )].cell.subs,
                None => !has_key(old(self).entries(), key)
                    && final(self).entries() == old(self).entries(),
            },
    {
        match self.find(key) {
            Some(i) => {
                proof {
                    let k = index_of_key(old(self).entries(), key);
                    assert(old(self).entries()[i as int].key == key);
                    assert(0 <= k < old(self).entries().len() && old(self).entries()[k].key
                        == key);
                    if k != i as int {
                        assert(old(self).wf());
                        assert(false);
                    }
                }
                let notify = self.entries[i].cell.write(value);
                proof {
                    assert(self.entries() =~= written_at(old(self).entries(), i as int, value));
                    assert forall|a: int, b: int|
                        0 <= a < b < self.entries().len() implies self.entries()[a].key
                        != self.entries()[b].key && self.entries()[a].id != self.entries()[b].id by {
                        assert(old(self).wf());
                        assert(old(self).entries()[a].key == self.entries()[a].key);
                        assert(old(self).entries()[b].key == self.entries()[b].key);
                        assert(old(self).entries()[a].id == self.entries()[a].id);
                        assert(old(self).entries()[b].id == self.entries()[b].id);
                    }
                    assert forall|a: int| 0 <= a < self.entries().len() implies self.entries()[a].id
                        < self.next_id() by {
                        assert(old(self).wf());
                        assert(old(self).entries()[a].id == self.entries()[a].id);
                    }
                    assert forall|a: int| 0 <= a < self.entries().len() implies (
                    #[trigger] self.entries()[a].cell).wf() by {
                        assert(old(self).wf());
                        assert(old(self).entries()[a].cell.wf());
                        assert(self.entries()[a].cell.subs == old(self).entries()[a].cell.subs);
                        assert(self.entries()[a].cell.next_token == old(
                            self,
                        ).entries()[a].cell.next_token);
                    }
                }
                Some(notify)
            },
            None => None,
        }
    }

    /// Subscribes to the cell of the entry holding `key` and returns the
    /// fresh token — never handed out by that cell before — or `None`, with
    /// the list untouched, when no entry holds the key. No other entry is
    /// changed.
    pub fn subscribe_by_key(&mut self, key: u64) -> (r: Option<u64>)
        requires
            old(self).wf(),
            forall|i: int|
                0 <= i < old(self).entries().len() && old(self).entries()[i].key == key
                    ==> old(self).entries()[i].cell.next_token < u64::MAX,
        ensures
            final(self).wf(),
            final(self).next_id() == old(self).next_id(),
            match r {
                Some(token) => has_key(old(self).entries(), key)
                    && final(self).entries() == subscribed_at(
                    old(self).entries(),
                    index_of_key(old(self).entries(), key),
                ) && token == old(self).entries()[index_of_key(
                    old(self).entries(),
                    key,
                )].cell.next_token,
                None => !has_key(old(self).entries(), key)
                    && final(self).entries() == old(self).entries(),
            },
    {
        match self.find(key) {
            Some(i) => {
                proof {
                    let k = index_of_key(old(self).entries(), key);
                    assert(old(self).entries()[i as int].key == key);
                    assert(0 <= k < old(self).entries().len() && old(self).entries()[k].key
                        == key);
                    if k != i as int {
                        assert(old(self).wf());
                        assert(false);
                    }
                    assert(old(self).wf());
                    assert(old(self).entries()[i as int].cell.wf());
                }
                let token = self.entries[i].cell.subscribe();
                proof {
                    assert(self.entries() =~= subscribed_at(old(self).entries(), i as int));
                    assert forall|a: int, b: int|
                        0 <= a < b < self.entries().len() implies self.entries()[a].key
                        != self.entries()[b].key && self.entries()[a].id != self.entries()[b].id by {
                        assert(old(self).wf());
                        assert(old(self).entries()[a].key == self.entries()[a].key);
                        assert(old(self).entries()[b].key == self.entries()[b].key);
                        assert(old(self).entries()[a].id == self.entries()[a].id);
                        assert(old(self).entries()[b].id == self.entries()[b].id);
                    }
                    assert forall|a: int| 0 <= a < self.entries().len() implies self.entries()[a].id
                        < self.next_id() by {
                        assert(old(self).wf());
                        assert(old(self).entries()[a].id == self.entries()[a].id);
                    }
                    assert forall|a: int| 0 <= a < self.entries().len() implies (
                    #[trigger] self.entries()[a].cell).wf() by {
                        assert(old(self).wf());
                        assert(old(self).entries()[a].cell.wf());
                        if a != i as int {
                            assert(self.entries()[a].cell == old(self).entries()[a].cell);
                        }
                    }
                }
                Some(token)
            },
            None => None,
        }
    }
}

/// Removing one entry leaves each remaining entry's identity — and its whole
/// cell, subscribers and version included — exactly as it was: the entry
/// reappears, unchanged, among the remaining ones.
pub proof fn lemma_remove_keeps_identities<V>(s: Seq<KeyedEntryView<V>>, key: u64, j: int)
    requires
        0 <= j < s.len(),
        s[j].key != key,
    ensures
        remaining(s, key).contains(s[j]),
{
    assert(outlives::<V>(key)(s[j]));
    s.lemma_filter_contains(outlives(key), j);
}

} // verus!
