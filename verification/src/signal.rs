//! Signal cells: the mutable reactive leaves of the store.
//!
//! A cell owns one value exclusively; readers receive a shared borrow and
//! every change goes through [`SignalCell::write`], which commits a new
//! version and hands back the subscriber tokens to notify, in subscription
//! order. The notification list is a snapshot: a token unsubscribed while the
//! caller walks the list simply stops appearing in later snapshots.

use vstd::prelude::*;
use crate::compute::Compute;
use crate::lens::Lens;
use crate::seqs::lemma_filter_all_true;
use crate::seqs::lemma_filter_unique_remove;

verus! {

/// The mathematical model of a signal cell: its current value, the subscriber
/// tokens in subscription order, the next token to hand out, and the version,
/// which counts committed writes.
pub struct SignalView<T> {
    pub value: T,
    pub subs: Seq<u64>,
    pub next_token: u64,
    pub version: u64,
}

/// Subscriber tokens are pairwise distinct and below the next token to be
/// handed out.
pub open spec fn tokens_wf(subs: Seq<u64>, next_token: u64) -> bool {
    &&& (forall|i: int, j: int| 0 <= i < j < subs.len() ==> subs[i] != subs[j])
    &&& (forall|i: int| 0 <= i < subs.len() ==> subs[i] < next_token)
}

impl<T> SignalView<T> {
    /// Every cell the public operations can build satisfies this.
    pub open spec fn wf(self) -> bool {
        tokens_wf(self.subs, self.next_token)
    }
}

/// The model of a freshly created cell holding `value`.
pub open spec fn initial_view<T>(value: T) -> SignalView<T> {
    SignalView { value, subs: Seq::empty(), next_token: 0, version: 0 }
}

/// The model of `s` after a committed write of `value`: the value is replaced
/// atomically, a new version is committed, and the subscribers are untouched.
pub open spec fn written<T>(s: SignalView<T>, value: T) -> SignalView<T> {
    SignalView { value, version: (s.version + 1) as u64, ..s }
}

/// The model of `s` after handing out one more subscriber token.
pub open spec fn subscribed<T>(s: SignalView<T>) -> SignalView<T> {
    SignalView { subs: s.subs.push(s.next_token), next_token: (s.next_token + 1) as u64, ..s }
}

/// The predicate a subscriber token must satisfy to survive the revocation of
/// `token`.
pub open spec fn keeps(token: u64) -> spec_fn(u64) -> bool {
    |t: u64| t != token
}

/// The model of `s` after revoking `token`: the token is gone and the other
/// subscribers keep their order.
pub open spec fn unsubscribed<T>(s: SignalView<T>, token: u64) -> SignalView<T> {
    SignalView { subs: s.subs.filter(keeps(token)), ..s }
}

/// A mutable reactive cell holding one value of type `T`.
pub struct SignalCell<T> {
    value: T,
    subs: Vec<u64>,
    next_token: u64,
    version: u64,
}

impl<T> View for SignalCell<T> {
    type V = SignalView<T>;

    closed spec fn view(&self) -> SignalView<T> {
        SignalView {
            value: self.value,
            subs: self.subs@,
            next_token: self.next_token,
            version: self.version,
        }
    }
}

impl<T> SignalCell<T> {
    /// Creates a cell holding `initial`, with no subscribers yet.
    pub fn new(initial: T) -> (cell: Self)
        ensures
            cell@ == initial_view(initial),
            cell@.wf(),
    {
        let cell = SignalCell { value: initial, subs: Vec::new(), next_token: 0, version: 0 };
        proof {
            assert(cell@ =~= initial_view(initial));
        }
        cell
    }

    /// Reads the current value. A read always returns the latest committed
    /// value; the borrow is shared, so no reader can bypass the write path.
    pub fn read(&self) -> (value: &T)
        ensures
            *value == self@.value,
    {
        &self.value
    }

    /// The version of the current value: how many writes have been committed.
    pub fn version(&self) -> (v: u64)
        ensures
            v == self@.version,
    {
        self.version
    }

    /// How many subscribers the cell has.
    pub fn subscriber_count(&self) -> (n: usize)
        ensures
            n == self@.subs.len(),
    {
        self.subs.len()
    }

    /// Whether `token` is currently subscribed.
    #[verifier::loop_isolation(false)]
    pub fn is_subscribed(&self, token: u64) -> (r: bool)
        ensures
            r == self@.subs.contains(token),
    {
        let mut i: usize = 0;
        while i < self.subs.len()
            invariant
                i <= self.subs.len(),
                forall|j: int| 0 <= j < i ==> self@.subs[j] != token,
            decreases self.subs.len() - i,
        {
            if self.subs[i] == token {
                return true;
            }
            i = i + 1;
        }
        false
    }

    /// Registers a new subscriber and returns its token, which was never
    /// handed out by this cell before.
    pub fn subscribe(&mut self) -> (token: u64)
        requires
            old(self)@.wf(),
            old(self)@.next_token < u64::MAX,
        ensures
            final(self)@ == subscribed(old(self)@),
            final(self)@.wf(),
            token == old(self)@.next_token,
            !old(self)@.subs.contains(token),
            final(self)@.subs == old(self)@.subs.push(token),
    {
        let token = self.next_token;
        self.subs.push(token);
        self.next_token = self.next_token + 1;
        proof {
            assert(self@ =~= subscribed(old(self)@));
        }
        token
    }

    /// Revokes `token`. Total: revoking an unknown or already revoked token is
    /// a no-op, so a subscriber may safely unsubscribe while a notification
    /// list is being walked. Returns whether the token was subscribed.
    #[verifier::loop_isolation(false)]
    pub fn unsubscribe(&mut self, token: u64) -> (was: bool)
        requires
            old(self)@.wf(),
        ensures
            final(self)@ == unsubscribed(old(self)@, token),
            final(self)@.wf(),
            was == old(self)@.subs.contains(token),
    {
        let ghost pred = keeps(token);
        let mut i: usize = 0;
        while i < self.subs.len()
            invariant
                *self == *old(self),
                i <= self.subs.len(),
                forall|j: int| 0 <= j < i ==> self@.subs[j] != token,
            decreases self.subs.len() - i,
        {
            if self.subs[i] == token {
                proof {
                    assert(old(self)@.subs[i as int] == token);
                    assert(!pred(old(self)@.subs[i as int]));
                    assert forall|j: int|
                        0 <= j < old(self)@.subs.len() && j != i as int implies pred(
                        old(self)@.subs[j],
                    ) by {
                        if j > i as int {
                            assert(old(self)@.wf());
                        }
                    }
                }
                self.subs.remove(i);
                proof {
                    lemma_filter_unique_remove(old(self)@.subs, pred, i as int);
                    assert(self@ =~= unsubscribed(old(self)@, token));
                    assert(old(self)@.subs.contains(token));
                    assert forall|a: int, b: int|
                        0 <= a < b < self@.subs.len() implies self@.subs[a] != self@.subs[b] by {
                        assert(self@.subs == old(self)@.subs.remove(i as int));
                    }
                    assert forall|a: int| 0 <= a < self@.subs.len() implies self@.subs[a]
                        < self@.next_token by {
                        assert(self@.subs == old(self)@.subs.remove(i as int));
                    }
                }
                return true;
            }
            i = i + 1;
        }
        proof {
            assert forall|j: int| 0 <= j < self@.subs.len() implies pred(self@.subs[j]) by {}
            lemma_filter_all_true(self@.subs, pred);
            assert(self@ =~= unsubscribed(old(self)@, token));
            if old(self)@.subs.contains(token) {
                let j = choose|j: int|
                    0 <= j < old(self)@.subs.len() && old(self)@.subs[j] == token;
                assert(false);
            }
        }
        false
    }

    /// Replaces the value, commits a new version, and returns the tokens to
    /// notify, in subscription order. The whole list is handed to the caller
    /// before it delivers anything, so the fan-out is a snapshot of the
    /// subscribers at commit time. Equal values are not detected: every write
    /// commits and notifies.
    pub fn write(&mut self, value: T) -> (notify: Vec<u64>)
        requires
            old(self)@.version < u64::MAX,
        ensures
            final(self)@ == written(old(self)@, value),
            final(self)@.wf() == old(self)@.wf(),
            notify@ == old(self)@.subs,
    {
        let notify = self.snapshot_subs();
        self.value = value;
        self.version = self.version + 1;
        proof {
            assert(self@ =~= written(old(self)@, value));
            assert(self@.subs == old(self)@.subs);
            if old(self)@.wf() {
                assert(self@.wf());
            }
            if self@.wf() {
                assert(old(self)@.wf());
            }
        }
        notify
    }

    /// Replaces the value with a pure updater applied to it — the committed
    /// value is exactly `f.value` of the current one — and returns the
    /// tokens to notify, in subscription order.
    pub fn write_with<F: Compute<T, T>>(&mut self, f: &F) -> (notify: Vec<u64>)
        requires
            old(self)@.version < u64::MAX,
            f.pre(old(self)@.value),
        ensures
            final(self)@ == written(old(self)@, f.value(old(self)@.value)),
            final(self)@.wf() == old(self)@.wf(),
            notify@ == old(self)@.subs,
    {
        let next = f.compute(&self.value);
        self.write(next)
    }

    /// Reads a slice: what `lens` projects out of the current value. The
    /// slice holds no copy of its own; the container is read at call time.
    pub fn read_through<'a, U, L: Lens<T, U>>(&'a self, lens: &L) -> (r: &'a U)
        ensures
            *r == lens.spec_get(self@.value),
    {
        lens.get(&self.value)
    }

    /// Writes a slice: commits `lens.spec_set` of the current value and the
    /// given component, and returns the tokens to notify, in subscription
    /// order. The whole container's subscribers are notified; disjoint
    /// slices are told apart by contract, not by a narrower fan-out (see
    /// [`crate::lens::lens_disjoint`]).
    pub fn write_through<U, L: Lens<T, U>>(&mut self, lens: &L, v: U) -> (notify: Vec<u64>)
        requires
            old(self)@.version < u64::MAX,
        ensures
            final(self)@ == written(old(self)@, lens.spec_set(old(self)@.value, v)),
            final(self)@.wf() == old(self)@.wf(),
            notify@ == old(self)@.subs,
    {
        let notify = self.snapshot_subs();
        lens.set(&mut self.value, v);
        self.version = self.version + 1;
        proof {
            assert(self@ =~= written(old(self)@, lens.spec_set(old(self)@.value, v)));
            assert(self@.wf() == old(self)@.wf());
        }
        notify
    }

    /// Copies the current subscriber list, in subscription order.
    #[verifier::loop_isolation(false)]
    fn snapshot_subs(&self) -> (notify: Vec<u64>)
        ensures
            notify@ == self@.subs,
    {
        let mut notify: Vec<u64> = Vec::new();
        let mut i: usize = 0;
        while i < self.subs.len()
            invariant
                i <= self.subs.len(),
                notify@ == self@.subs.take(i as int),
            decreases self.subs.len() - i,
        {
            notify.push(self.subs[i]);
            proof {
                assert(notify@ =~= self@.subs.take(i + 1 as int));
            }
            i = i + 1;
        }
        proof {
            assert(self@.subs.take(self.subs.len() as int) =~= self@.subs);
        }
        notify
    }
}

/// After a write of `value`, a read returns exactly `value`; the write touches
/// neither the subscribers nor the token supply.
pub proof fn lemma_write_then_read<T>(s: SignalView<T>, value: T)
    ensures
        written(s, value).value == value,
        written(s, value).subs == s.subs,
        written(s, value).next_token == s.next_token,
{
}

/// A revoked token is never delivered to again: it is absent from the cell's
/// subscribers, and the notification list of any later write — which equals
/// the subscriber list at commit time — excludes it.
pub proof fn lemma_unsubscribe_excludes<T>(s: SignalView<T>, token: u64, value: T)
    ensures
        !unsubscribed(s, token).subs.contains(token),
        written(unsubscribed(s, token), value).subs == unsubscribed(s, token).subs,
{
    let pred = keeps(token);
    let out = s.subs.filter(pred);
    if out.contains(token) {
        let i = choose|i: int| 0 <= i < out.len() && out[i] == token;
        s.subs.lemma_filter_pred(pred, i);
        assert(pred(out[i]));
    }
}

} // verus!
