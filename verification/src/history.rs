use vstd::prelude::*;
use crate::record::{recs_view, Record, RecordView};

verus! {

/// The last `k` elements of `s` (all of them when `s` is shorter).
pub open spec fn take_last(s: Seq<RecordView>, k: nat) -> Seq<RecordView> {
    if s.len() <= k {
        s
    } else {
        s.subrange(s.len() - k, s.len() as int)
    }
}

/// A bounded FIFO of the most recent content records, mutated only by the
/// producer under a lock and copied whole by a connecting client before
/// any network write.
pub struct HistoryRing {
    /// Bound on the number of retained records; 0 retains nothing.
    pub cap: usize,
    pub items: Vec<Record>,
}

impl HistoryRing {
    pub open spec fn wf(self) -> bool {
        self.items@.len() <= self.cap
    }

    pub fn new(cap: usize) -> (r: HistoryRing)
        ensures
            r.wf(),
            r.cap == cap,
            recs_view(r.items@) == Seq::<RecordView>::empty(),
    {
        let r = HistoryRing { cap, items: Vec::new() };
        proof {
            assert(recs_view(r.items@) =~= Seq::<RecordView>::empty());
        }
        r
    }

    /// Appends `rec`, evicting the oldest record when at capacity, so the
    /// ring always holds the most recent `cap` records pushed into it.
    pub fn push(&mut self, rec: Record)
        requires
            old(self).wf(),
        ensures
            final(self).wf(),
            final(self).cap == old(self).cap,
            recs_view(final(self).items@) == take_last(
                recs_view(old(self).items@).push(rec@),
                old(self).cap as nat,
            ),
    {
        if self.cap == 0 {
            proof {
                assert(recs_view(self.items@) =~= take_last(
                    recs_view(old(self).items@).push(rec@),
                    0,
                ));
            }
            return ;
        }
        if self.items.len() >= self.cap {
            self.items.remove(0);
        }
        self.items.push(rec);
        proof {
            assert(recs_view(self.items@) =~= take_last(
                recs_view(old(self).items@).push(rec@),
                old(self).cap as nat,
            ));
        }
    }

    /// A point-in-time copy, element for element; a client takes it under
    /// the lock and replays it afterwards, off the producer's path.
    pub fn snapshot(&self) -> (r: Vec<Record>)
        ensures
            recs_view(r@) == recs_view(self.items@),
    {
        let mut r: Vec<Record> = Vec::new();
        let mut i: usize = 0;
        while i < self.items.len()
            invariant
                i <= self.items@.len(),
                r@.len() == i,
                forall|t: int| 0 <= t < i ==> (#[trigger] r@[t])@ == self.items@[t]@,
            decreases self.items@.len() - i,
        {
            let copy = self.items[i].duplicate();
            r.push(copy);
            i = i + 1;
        }
        proof {
            assert(recs_view(r@) =~= recs_view(self.items@));
        }
        r
    }
}

} // verus!
