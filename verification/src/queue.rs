//! The Delay Queue: temporal scattering of outgoing fragments.
//!
//! Every fragment is scheduled at `now + base_delay + jitter`, where the
//! base delay is ten milliseconds per unit of the temporal dimension and the
//! jitter comes from the frequency dimension, the sum clamped to a
//! configured maximum.  The queue keeps its entries sorted by release
//! instant; a poll returns exactly the entries whose instant has passed, in
//! non-decreasing instant order, and never releases a fragment early.

use vstd::prelude::*;
use crate::coordinate::DimensionalCoordinate;
use crate::errors::VaultError;
use crate::fragment::{DimensionalFragment, FragmentView};

verus! {

/// The transmission delay the coordinate dictates, clamped to `max_delay_ms`:
/// ten milliseconds per temporal unit plus up to 99 ms of jitter.
pub open spec fn spec_delay_ms(c: DimensionalCoordinate, max_delay_ms: u64) -> u64 {
    let raw = c.temporal * 10 + c.frequency % 100;
    if raw <= max_delay_ms {
        raw as u64
    } else {
        max_delay_ms
    }
}

/// The first index at or after `from` whose entry is scheduled past
/// `deadline`; the length when there is none.  A new entry inserted there
/// goes after every entry scheduled at or before it.
pub open spec fn first_late(entries: Seq<(u64, FragmentView)>, deadline: u64, from: int) -> int
    decreases entries.len() - from,
{
    if from < 0 || from >= entries.len() {
        entries.len() as int
    } else if entries[from].0 > deadline {
        from
    } else {
        first_late(entries, deadline, from + 1)
    }
}

/// Where `first_late` points: inside the sequence, behind every entry
/// scheduled at or before the deadline, and, in a sorted sequence, ahead of
/// every entry scheduled after it.
pub proof fn lemma_first_late_splits(entries: Seq<(u64, FragmentView)>, deadline: u64, from: int)
    requires
        0 <= from <= entries.len(),
    ensures
        from <= first_late(entries, deadline, from) <= entries.len(),
        forall|j: int|
            from <= j < first_late(entries, deadline, from) ==> (#[trigger] entries[j]).0
                <= deadline,
        first_late(entries, deadline, from) < entries.len() ==> entries[first_late(
            entries,
            deadline,
            from,
        )].0 > deadline,
    decreases entries.len() - from,
{
    if from < entries.len() && entries[from].0 <= deadline {
        lemma_first_late_splits(entries, deadline, from + 1);
    }
}

/// Scheduled fragments ordered by release instant.
pub struct TemporalQueue {
    queue: Vec<(u64, DimensionalFragment)>,
    max_delay_ms: u64,
    capacity: usize,
    dropped: u64,
}

impl TemporalQueue {
    /// The scheduled entries: (release instant, fragment), oldest instant
    /// first.
    pub closed spec fn entries(self) -> Seq<(u64, FragmentView)> {
        self.queue@.map_values(|e: (u64, DimensionalFragment)| (e.0, e.1@))
    }

    pub closed spec fn spec_max_delay_ms(self) -> u64 {
        self.max_delay_ms
    }

    /// How many entries the queue will hold before dropping new ones.
    pub closed spec fn spec_capacity(self) -> usize {
        self.capacity
    }

    /// How many fragments were dropped because the queue was full.
    pub closed spec fn spec_dropped(self) -> u64 {
        self.dropped
    }

    /// Entries are sorted by release instant.
    pub open spec fn wf(self) -> bool {
        forall|i: int, j: int|
            0 <= i <= j < self.entries().len() ==> (#[trigger] self.entries()[i]).0 <= (
            #[trigger] self.entries()[j]).0
    }

    /// An empty, unbounded queue with the given delay clamp.
    pub fn new(max_delay_ms: u64) -> (r: Self)
        ensures
            r.entries() =~= Seq::<(u64, FragmentView)>::empty(),
            r.spec_max_delay_ms() == max_delay_ms,
            r.spec_capacity() == usize::MAX,
            r.spec_dropped() == 0,
            r.wf(),
    {
        TemporalQueue { queue: Vec::new(), max_delay_ms, capacity: usize::MAX, dropped: 0 }
    }

    /// Bounds the queue; entries beyond the bound are dropped newest-first.
    pub fn set_capacity(&mut self, capacity: usize)
        ensures
            final(self).entries() == old(self).entries(),
            final(self).spec_max_delay_ms() == old(self).spec_max_delay_ms(),
            final(self).spec_dropped() == old(self).spec_dropped(),
            final(self).spec_capacity() == capacity,
    {
        self.capacity = capacity;
    }

    pub fn len(&self) -> (r: usize)
        ensures
            r == self.entries().len(),
    {
        self.queue.len()
    }

    pub fn capacity(&self) -> (r: usize)
        ensures
            r == self.spec_capacity(),
    {
        self.capacity
    }

    /// Schedules `fragment` for release at `now_ms` plus the delay its
    /// coordinate dictates.  A full queue drops the new fragment and counts
    /// it, never an already scheduled one.
    pub fn enqueue(&mut self, fragment: DimensionalFragment, now_ms: u64) -> (r: Result<
        (),
        VaultError,
    >)
        requires
            old(self).wf(),
            fragment.coordinate.wf(),
            now_ms + 1369 <= u64::MAX,
        ensures
            final(self).wf(),
            final(self).spec_max_delay_ms() == old(self).spec_max_delay_ms(),
            final(self).spec_capacity() == old(self).spec_capacity(),
            r is Ok <==> old(self).entries().len() < old(self).spec_capacity(),
            r is Ok ==> final(self).spec_dropped() == old(self).spec_dropped() && final(
                self).entries() == old(self).entries().insert(
                first_late(
                    old(self).entries(),
                    (now_ms + spec_delay_ms(
                        fragment.coordinate,
                        old(self).spec_max_delay_ms(),
                    )) as u64,
                    0,
                ),
                (
                    (now_ms + spec_delay_ms(
                        fragment.coordinate,
                        old(self).spec_max_delay_ms(),
                    )) as u64,
                    fragment@,
                ),
            ),
            r is Err ==> final(self).entries() == old(self).entries()
                && final(self).spec_dropped() == (if old(self).spec_dropped() < u64::MAX {
                old(self).spec_dropped() + 1
            } else {
                u64::MAX as int
            }),
            r matches Err(e) ==> e == VaultError::QueueOverflow,
    {
        let base_delay: u64 = (fragment.coordinate.temporal as u64) * 10;
        let jitter: u64 = (fragment.coordinate.frequency as u64) % 100;
        let mut delay: u64 = base_delay + jitter;
        if delay > self.max_delay_ms {
            delay = self.max_delay_ms;
        }
        let deadline: u64 = now_ms + delay;
        proof {
            assert(delay == spec_delay_ms(fragment.coordinate, self.max_delay_ms));
        }

        if self.queue.len() >= self.capacity {
            self.dropped = if self.dropped < u64::MAX {
                self.dropped + 1
            } else {
                u64::MAX
            };
            return Err(VaultError::QueueOverflow);
        }

        // Find the first position whose instant is past the deadline, so the
        // new entry goes after every entry scheduled at or before it.
        let mut p: usize = 0;
        while p < self.queue.len() && self.queue[p].0 <= deadline
            invariant
                p <= self.queue@.len(),
                forall|j: int| 0 <= j < p ==> (#[trigger] self.queue@[j]).0 <= deadline,
                first_late(self.entries(), deadline, 0) == first_late(
                    self.entries(),
                    deadline,
                    p as int,
                ),
                self == old(self),
            decreases self.queue@.len() - p,
        {
            p = p + 1;
        }
        proof {
            assert(p as int == first_late(old(self).entries(), deadline, 0));
            assert forall|j: int|
                p <= j < old(self).entries().len() implies (#[trigger] old(self).entries()[j]).0
                    > deadline by {
                assert(old(self).entries()[p as int].0 <= old(self).entries()[j].0);
            }
        }
        let ghost pre = self.queue@;
        self.queue.insert(p, (deadline, fragment));
        proof {
            assert(self.entries() =~= old(self).entries().insert(p as int, (deadline, fragment@)));
            assert forall|i: int, j: int|
                0 <= i <= j < self.entries().len() implies (#[trigger] self.entries()[i]).0 <= (
            #[trigger] self.entries()[j]).0 by {
                assert(forall|t: int|
                    0 <= t < old(self).entries().len() ==> (#[trigger] old(self).entries()[t]).0
                        == self.entries()[if t < p as int {
                        t
                    } else {
                        t + 1
                    }].0);
            }
        }
        Ok(())
    }

    /// Returns every fragment whose release instant has passed, oldest
    /// instant first, and removes them from the queue.  No fragment leaves
    /// before its instant: everything returned was scheduled at or before
    /// `now_ms`.
    pub fn dequeue_ready(&mut self, now_ms: u64) -> (r: Vec<DimensionalFragment>)
        requires
            old(self).wf(),
        ensures
            final(self).wf(),
            final(self).spec_max_delay_ms() == old(self).spec_max_delay_ms(),
            final(self).spec_capacity() == old(self).spec_capacity(),
            final(self).spec_dropped() == old(self).spec_dropped(),
            ({
                let pre = old(self).entries();
                let n = first_late(pre, now_ms, 0);
                &&& r@.map_values(|f: DimensionalFragment| f@) == pre.subrange(0, n).map_values(
                    |e: (u64, FragmentView)| e.1,
                )
                &&& final(self).entries() == pre.subrange(n, pre.len() as int)
                &&& forall|j: int| 0 <= j < n ==> (#[trigger] pre[j]).0 <= now_ms
                &&& forall|j: int| n <= j < pre.len() ==> (#[trigger] pre[j]).0 > now_ms
            }),
    {
        let mut n: usize = 0;
        while n < self.queue.len() && self.queue[n].0 <= now_ms
            invariant
                n <= self.queue@.len(),
                forall|j: int| 0 <= j < n ==> (#[trigger] self.queue@[j]).0 <= now_ms,
                first_late(self.entries(), now_ms, 0) == first_late(
                    self.entries(),
                    now_ms,
                    n as int,
                ),
                self == old(self),
            decreases self.queue@.len() - n,
        {
            n = n + 1;
        }
        proof {
            assert(n as int == first_late(old(self).entries(), now_ms, 0));
            assert forall|j: int|
                n <= j < old(self).entries().len() implies (#[trigger] old(self).entries()[j]).0
                    > now_ms by {
                assert(old(self).entries()[n as int].0 <= old(self).entries()[j].0);
            }
        }

        let mut ready: Vec<DimensionalFragment> = Vec::new();
        let mut i: usize = 0;
        while i < n
            invariant
                i <= n <= self.queue@.len(),
                self == old(self),
                ready@.len() == i,
                forall|j: int| 0 <= j < i ==> (#[trigger] ready@[j])@ == self.queue@[j].1@,
            decreases n - i,
        {
            let piece = self.queue[i].1.duplicate();
            ready.push(piece);
            i = i + 1;
        }
        proof {
            assert(ready@.map_values(|f: DimensionalFragment| f@) =~= old(
                self,
            ).entries().subrange(0, n as int).map_values(|e: (u64, FragmentView)| e.1));
        }
        let rest = self.queue.split_off(n);
        self.queue = rest;
        proof {
            assert(self.entries() =~= old(self).entries().subrange(
                n as int,
                old(self).entries().len() as int,
            ));
        }
        ready
    }
}

} // verus!
