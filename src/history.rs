//! A bounded, newest-first history of snapshots.
use std::collections::VecDeque;
use vstd::prelude::*;

use crate::snapshot::Snapshot;

verus! {

/// The number of snapshots a history keeps unless told otherwise.
pub const DEFAULT_CAPACITY: usize = 10;

/// `s` put in front of `hist`, cut to at most `cap` entries.
pub open spec fn push_front_bounded(hist: Seq<Snapshot>, s: Snapshot, cap: nat) -> Seq<Snapshot> {
    let full = seq![s] + hist;
    if full.len() <= cap {
        full
    } else {
        full.subrange(0, cap as int)
    }
}

/// `hist` after inserting each of `inserted` in turn, first to last.
pub open spec fn after_inserts(hist: Seq<Snapshot>, inserted: Seq<Snapshot>, cap: nat) -> Seq<
    Snapshot,
>
    decreases inserted.len(),
{
    if inserted.len() == 0 {
        hist
    } else {
        push_front_bounded(after_inserts(hist, inserted.drop_last(), cap), inserted.last(), cap)
    }
}

/// The position, newest first, of the first entry of `hist` whose process
/// table holds `pid`; every earlier entry lacks it.
pub open spec fn is_first_containing(hist: Seq<Snapshot>, pid: i32, i: int) -> bool {
    &&& 0 <= i < hist.len()
    &&& hist[i].contains_pid(pid)
    &&& forall|j: int| 0 <= j < i ==> !(#[trigger] hist[j]).contains_pid(pid)
}

/// Snapshots ordered newest first, never more than the capacity.
pub struct SnapshotHistory {
    snapshots: VecDeque<Snapshot>,
    capacity: usize,
}

impl SnapshotHistory {
    /// The retained snapshots, newest first.
    pub closed spec fn view(&self) -> Seq<Snapshot> {
        self.snapshots@
    }

    /// The largest number of snapshots the history keeps.
    pub closed spec fn spec_capacity(&self) -> nat {
        self.capacity as nat
    }

    /// An empty history that keeps at most `capacity` snapshots.
    pub fn with_capacity(capacity: usize) -> (h: SnapshotHistory)
        ensures
            h@ == Seq::<Snapshot>::empty(),
            h.spec_capacity() == capacity,
    {
        SnapshotHistory { snapshots: VecDeque::new(), capacity }
    }

    /// An empty history that keeps at most `DEFAULT_CAPACITY` snapshots.
    pub fn new() -> (h: SnapshotHistory)
        ensures
            h@ == Seq::<Snapshot>::empty(),
            h.spec_capacity() == DEFAULT_CAPACITY,
    {
        Self::with_capacity(DEFAULT_CAPACITY)
    }

    /// The largest number of snapshots the history keeps.
    pub fn capacity(&self) -> (r: usize)
        ensures
            r == self.spec_capacity(),
    {
        self.capacity
    }

    /// The number of retained snapshots.
    pub fn len(&self) -> (r: usize)
        ensures
            r == self@.len(),
    {
        self.snapshots.len()
    }

    /// Puts `s` in front as the newest snapshot and drops the oldest ones
    /// past the capacity.
    pub fn insert(&mut self, s: Snapshot)
        ensures
            final(self).spec_capacity() == old(self).spec_capacity(),
            final(self)@ == push_front_bounded(old(self)@, s, old(self).spec_capacity()),
            final(self)@.len() <= final(self).spec_capacity(),
    {
        self.snapshots.push_front(s);
        self.snapshots.truncate(self.capacity);
    }

    /// The snapshot at position `i`, newest first.
    pub fn get(&self, i: usize) -> (r: &Snapshot)
        requires
            i < self@.len(),
        ensures
            *r == self@[i as int],
    {
        &self.snapshots[i]
    }

    /// The newest snapshot, if any.
    pub fn newest(&self) -> (r: Option<&Snapshot>)
        ensures
            self@.len() == 0 ==> r is None,
            self@.len() > 0 ==> r == Some(&self@[0]),
    {
        if self.snapshots.len() == 0 {
            None
        } else {
            Some(&self.snapshots[0])
        }
    }

    /// The position, newest first, of the freshest snapshot whose process
    /// table holds `pid`. `None` when no retained snapshot holds it.
    pub fn find_containing(&self, pid: i32) -> (r: Option<usize>)
        ensures
            match r {
                Some(i) => is_first_containing(self@, pid, i as int),
                None => forall|j: int| 0 <= j < self@.len() ==> !(#[trigger] self@[j]).contains_pid(pid),
            },
    {
        let n = self.snapshots.len();
        let mut i: usize = 0;
        while i < n
            invariant
                n == self@.len(),
                i <= n,
                forall|j: int| 0 <= j < i ==> !(#[trigger] self@[j]).contains_pid(pid),
            decreases n - i,
        {
            if self.snapshots[i].find_process(pid).is_some() {
                return Some(i);
            }
            i = i + 1;
        }
        None
    }
}

/// Whatever came before, a history only ever holds the snapshots inserted
/// most recently, newest first: after any run of insertions its entry at
/// position `k` is the one inserted `k` insertions before the last, and it
/// holds no more entries than its capacity.
pub proof fn lemma_history_keeps_latest(hist: Seq<Snapshot>, inserted: Seq<Snapshot>, cap: nat)
    requires
        hist.len() <= cap,
    ensures
        after_inserts(hist, inserted, cap).len() <= cap,
        after_inserts(hist, inserted, cap) =~= (inserted.reverse() + hist).take(
            after_inserts(hist, inserted, cap).len() as int,
        ),
        after_inserts(hist, inserted, cap).len() == if inserted.len() + hist.len() <= cap {
            inserted.len() + hist.len()
        } else {
            cap
        },
    decreases inserted.len(),
{
    if inserted.len() > 0 {
        let rest = inserted.drop_last();
        lemma_history_keeps_latest(hist, rest, cap);
        let prev = after_inserts(hist, rest, cap);
        let all = inserted.reverse() + hist;
        let prev_all = rest.reverse() + hist;
        assert(all =~= seq![inserted.last()] + prev_all) by {
            assert forall|k: int| 0 <= k < all.len() implies all[k] == (seq![inserted.last()]
                + prev_all)[k] by {
                if k > 0 && k < inserted.len() {
                    assert(inserted.reverse()[k] == rest.reverse()[k - 1]);
                }
            }
        }
    }
}

/// Once at least `cap` snapshots have been inserted, a snapshot found by
/// its process id is one of the last `cap` insertions: the entry at
/// position `i` is the one inserted `i` insertions before the last, so no
/// entry evicted earlier can be found.
pub proof fn lemma_found_entry_is_recent(
    hist: Seq<Snapshot>,
    inserted: Seq<Snapshot>,
    cap: nat,
    pid: i32,
    i: int,
)
    requires
        hist.len() <= cap,
        inserted.len() >= cap,
        is_first_containing(after_inserts(hist, inserted, cap), pid, i),
    ensures
        0 <= i < cap,
        after_inserts(hist, inserted, cap)[i] == inserted[inserted.len() - 1 - i],
{
    lemma_history_keeps_latest(hist, inserted, cap);
    let all = inserted.reverse() + hist;
    assert(all[i] == inserted.reverse()[i]);
}

} // verus!
