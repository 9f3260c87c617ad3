use vstd::prelude::*;
use vstd::pervasive::VecAdditionalExecFns;
use crate::record::{recs_view, Record, RecordView};

verus! {

/// What one subscription observes on a poll.
pub enum RecvOutcome {
    /// The next record, in publish order.
    Msg(Record),
    /// The cursor had fallen behind the retained window; it was moved up
    /// to the oldest retained record, and the count is exactly the number
    /// of records this subscription missed.
    Lagged(u64),
    /// Nothing available right now; the hub is still open.
    Empty,
    /// The hub is closed and this subscription has read everything.
    Closed,
}

/// The number of live subscriptions.
pub open spec fn active_count(cs: Seq<Option<u64>>) -> nat
    decreases cs.len(),
{
    if cs.len() == 0 {
        0
    } else {
        active_count(cs.drop_last()) + (if cs.last() is Some {
            1nat
        } else {
            0nat
        })
    }
}

/// The smallest live cursor; the identity `u64::MAX` when none is live.
pub open spec fn min_active(cs: Seq<Option<u64>>) -> int
    decreases cs.len(),
{
    if cs.len() == 0 {
        u64::MAX as int
    } else {
        let rest = min_active(cs.drop_last());
        match cs.last() {
            Some(x) => if x < rest {
                x as int
            } else {
                rest
            },
            None => rest,
        }
    }
}

/// The position a cursor holds: at most one past the last published record.
pub open spec fn cursor_ok(c: Option<u64>, end: int) -> bool {
    match c {
        Some(x) => x <= end,
        None => true,
    }
}

/// While any subscription is live, the smallest live cursor is a real
/// cursor position, so it never passes the end of the log.
pub proof fn lemma_min_active_bound(cs: Seq<Option<u64>>, end: int)
    requires
        forall|i: int| 0 <= i < cs.len() ==> cursor_ok(#[trigger] cs[i], end),
        active_count(cs) != 0,
    ensures
        min_active(cs) <= end,
    decreases cs.len(),
{
    if cs.len() > 0 {
        match cs.last() {
            Some(x) => {
                assert(cursor_ok(cs[cs.len() - 1], end));
            },
            None => {
                assert forall|i: int| 0 <= i < cs.drop_last().len() implies cursor_ok(
                    #[trigger] cs.drop_last()[i],
                    end,
                ) by {
                    assert(cs.drop_last()[i] == cs[i]);
                }
                lemma_min_active_bound(cs.drop_last(), end);
            },
        }
    }
}

/// The fan-out hub: a fixed-capacity window over everything published,
/// with one independent read cursor per subscription. Publishing at
/// capacity evicts the oldest retained record; a cursor left behind the
/// window is never blocked but observes one lag event counting exactly
/// what it missed, then resumes at the oldest retained record.
pub struct Hub {
    /// Most records the window retains; at least 1.
    pub capacity: usize,
    /// Publish index of the oldest retained record.
    pub start: u64,
    /// The retained window, oldest first.
    pub buf: Vec<Record>,
    /// One entry per subscription ever made; `None` once it unsubscribed.
    pub cursors: Vec<Option<u64>>,
    /// No record will ever be published again.
    pub closed: bool,
    /// Every record ever published, in order.
    pub log: Ghost<Seq<RecordView>>,
}

impl Hub {
    /// One past the publish index of the newest record.
    pub open spec fn end(self) -> int {
        self.log@.len() as int
    }

    pub open spec fn wf(self) -> bool {
        &&& self.capacity >= 1
        &&& self.buf@.len() <= self.capacity
        &&& self.start as int == self.log@.len() - self.buf@.len()
        &&& recs_view(self.buf@) == self.log@.subrange(self.start as int, self.log@.len() as int)
        &&& self.log@.len() <= u64::MAX
        &&& forall|i: int|
            0 <= i < self.cursors@.len() ==> cursor_ok(#[trigger] self.cursors@[i], self.end())
    }

    /// The occupancy the backpressure policy watches: how many published
    /// records the slowest live subscription has not read yet, bounded by
    /// the window; 0 when nobody is subscribed.
    pub open spec fn queued_spec(self) -> int {
        if active_count(self.cursors@) == 0 {
            0
        } else {
            let m = if min_active(self.cursors@) > self.start as int {
                min_active(self.cursors@)
            } else {
                self.start as int
            };
            self.end() - m
        }
    }

    pub fn new(capacity: usize) -> (r: Hub)
        requires
            capacity >= 1,
        ensures
            r.wf(),
            r.capacity == capacity,
            r.log@ == Seq::<RecordView>::empty(),
            r.cursors@ == Seq::<Option<u64>>::empty(),
            !r.closed,
    {
        let r = Hub {
            capacity,
            start: 0,
            buf: Vec::new(),
            cursors: Vec::new(),
            closed: false,
            log: Ghost(Seq::empty()),
        };
        proof {
            assert(recs_view(r.buf@) =~= r.log@.subrange(0, 0));
        }
        r
    }

    /// Publishes `rec` to every subscription, evicting the oldest retained
    /// record when the window is full; never blocks.
    pub fn publish(&mut self, rec: Record)
        requires
            old(self).wf(),
            !old(self).closed,
            old(self).log@.len() + 1 <= u64::MAX,
        ensures
            final(self).wf(),
            final(self).log@ == old(self).log@.push(rec@),
            final(self).capacity == old(self).capacity,
            final(self).cursors@ == old(self).cursors@,
            final(self).closed == old(self).closed,
            final(self).buf@.len() == (if old(self).buf@.len() + 1 <= old(self).capacity {
                old(self).buf@.len() + 1 as int
            } else {
                old(self).capacity as int
            }),
    {
        let mut evicted = false;
        if self.buf.len() >= self.capacity {
            self.buf.remove(0);
            self.start = self.start + 1;
            evicted = true;
        }
        self.buf.push(rec);
        self.log = Ghost(self.log@.push(rec@));
        proof {
            let shift: int = if evicted {
                1int
            } else {
                0int
            };
            assert forall|i: int| 0 <= i < self.buf@.len() implies recs_view(self.buf@)[i]
                == self.log@.subrange(self.start as int, self.log@.len() as int)[i] by {
                assert(recs_view(self.buf@)[i] == self.buf@[i]@);
                if i < self.buf@.len() - 1 {
                    assert(self.buf@[i] == old(self).buf@[i + shift]);
                    assert(old(self).buf@[i + shift]@ == recs_view(old(self).buf@)[i + shift]);
                    assert(recs_view(old(self).buf@)[i + shift] == old(self).log@.subrange(
                        old(self).start as int,
                        old(self).log@.len() as int,
                    )[i + shift]);
                } else {
                    assert(self.buf@[i]@ == rec@);
                }
            }
            assert(recs_view(self.buf@) =~= self.log@.subrange(
                self.start as int,
                self.log@.len() as int,
            ));
            assert forall|i: int| 0 <= i < self.cursors@.len() implies cursor_ok(
                #[trigger] self.cursors@[i],
                self.end(),
            ) by {
                assert(cursor_ok(self.cursors@[i], old(self).end()));
            }
        }
    }

    /// Closes the hub: after the drain, every subscription observes
    /// `Closed` instead of `Empty`.
    pub fn close(&mut self)
        requires
            old(self).wf(),
        ensures
            final(self).wf(),
            final(self).closed,
            final(self).log@ == old(self).log@,
            final(self).capacity == old(self).capacity,
            final(self).cursors@ == old(self).cursors@,
            final(self).start == old(self).start,
            final(self).buf@ == old(self).buf@,
    {
        self.closed = true;
    }

    /// A new subscription, positioned after everything already published:
    /// it observes exactly the records published from now on.
    pub fn subscribe(&mut self) -> (id: usize)
        requires
            old(self).wf(),
            old(self).cursors@.len() + 1 <= usize::MAX,
        ensures
            final(self).wf(),
            id == old(self).cursors@.len(),
            final(self).cursors@ == old(self).cursors@.push(Some(old(self).log@.len() as u64)),
            final(self).log@ == old(self).log@,
            final(self).capacity == old(self).capacity,
            final(self).closed == old(self).closed,
            final(self).start == old(self).start,
            final(self).buf@ == old(self).buf@,
    {
        let id = self.cursors.len();
        let here = self.start + self.buf.len() as u64;
        proof {
            assert(here as int == self.end());
        }
        self.cursors.push(Some(here));
        proof {
            assert forall|i: int| 0 <= i < self.cursors@.len() implies cursor_ok(
                #[trigger] self.cursors@[i],
                self.end(),
            ) by {
                if i < id {
                    assert(cursor_ok(old(self).cursors@[i], self.end()));
                }
            }
        }
        id
    }

    /// Drops a subscription; its cursor no longer holds the hub back.
    pub fn unsubscribe(&mut self, id: usize)
        requires
            old(self).wf(),
            id < old(self).cursors@.len(),
        ensures
            final(self).wf(),
            final(self).cursors@ == old(self).cursors@.update(id as int, None),
            final(self).log@ == old(self).log@,
            final(self).capacity == old(self).capacity,
            final(self).closed == old(self).closed,
            final(self).start == old(self).start,
            final(self).buf@ == old(self).buf@,
    {
        self.cursors.set(id, None);
        proof {
            assert forall|i: int| 0 <= i < self.cursors@.len() implies cursor_ok(
                #[trigger] self.cursors@[i],
                self.end(),
            ) by {
                if i != id {
                    assert(cursor_ok(old(self).cursors@[i], self.end()));
                }
            }
        }
    }

    /// The position of a live cursor.
    pub open spec fn cur_of(self, id: int) -> u64 {
        match self.cursors@[id] {
            Some(x) => x,
            None => 0,
        }
    }

    /// Polls subscription `id` once. In publish order, every record still
    /// retained is observed exactly once; a cursor that fell behind the
    /// window observes a single lag event whose count is exactly the
    /// number of records it missed, then resumes at the oldest retained
    /// record.
    pub fn recv(&mut self, id: usize) -> (r: RecvOutcome)
        requires
            old(self).wf(),
            id < old(self).cursors@.len(),
            old(self).cursors@[id as int] is Some,
        ensures
            final(self).wf(),
            final(self).log@ == old(self).log@,
            final(self).capacity == old(self).capacity,
            final(self).closed == old(self).closed,
            final(self).start == old(self).start,
            final(self).buf@ == old(self).buf@,
            final(self).cursors@.len() == old(self).cursors@.len(),
            forall|i: int|
                0 <= i < old(self).cursors@.len() && i != id ==> final(self).cursors@[i] == old(
                    self,
                ).cursors@[i],
            ({
                let cur = old(self).cur_of(id as int);
                let lo = old(self).start;
                &&& (cur < lo ==> r == RecvOutcome::Lagged((lo - cur) as u64)
                    && final(self).cursors@[id as int] == Some(lo))
                &&& (lo <= cur && cur < old(self).end() ==> (r matches RecvOutcome::Msg(m) && m@
                    == old(self).log@[cur as int]) && final(self).cursors@[id as int]
                    == Some((cur + 1) as u64))
                &&& (cur == old(self).end() && old(self).closed ==> r == RecvOutcome::Closed
                    && final(self).cursors@[id as int] == old(self).cursors@[id as int])
                &&& (cur == old(self).end() && !old(self).closed ==> r == RecvOutcome::Empty
                    && final(self).cursors@[id as int] == old(self).cursors@[id as int])
            }),
    {
        let c = if let Some(x) = self.cursors[id] {
            x
        } else {
            0
        };
        if c < self.start {
            let n = self.start - c;
            let lo = self.start;
            self.cursors.set(id, Some(lo));
            proof {
                assert forall|i: int| 0 <= i < self.cursors@.len() implies cursor_ok(
                    #[trigger] self.cursors@[i],
                    self.end(),
                ) by {
                    if i != id {
                        assert(cursor_ok(old(self).cursors@[i], self.end()));
                    }
                }
            }
            RecvOutcome::Lagged(n)
        } else {
            let off = c - self.start;
            if off < self.buf.len() as u64 {
                let idx = off as usize;
                let m = self.buf[idx].duplicate();
                proof {
                    assert(self.buf@[idx as int]@ == recs_view(self.buf@)[idx as int]);
                    assert(m@ == self.log@[c as int]);
                }
                self.cursors.set(id, Some(c + 1));
                proof {
                    assert forall|i: int| 0 <= i < self.cursors@.len() implies cursor_ok(
                        #[trigger] self.cursors@[i],
                        self.end(),
                    ) by {
                        if i != id {
                            assert(cursor_ok(old(self).cursors@[i], self.end()));
                        }
                    }
                }
                RecvOutcome::Msg(m)
            } else {
                proof {
                    assert(c as int == self.end());
                }
                if self.closed {
                    RecvOutcome::Closed
                } else {
                    RecvOutcome::Empty
                }
            }
        }
    }

    /// Whether subscription `id` has read everything published so far;
    /// consumers flush their transport exactly when this holds.
    pub fn is_drained(&self, id: usize) -> (r: bool)
        requires
            self.wf(),
            id < self.cursors@.len(),
            self.cursors@[id as int] is Some,
        ensures
            r == (self.cur_of(id as int) as int == self.end()),
    {
        let c = if let Some(x) = self.cursors[id] {
            x
        } else {
            0
        };
        c == self.start + self.buf.len() as u64
    }

    /// How many subscriptions are live.
    pub fn receiver_count(&self) -> (n: usize)
        requires
            self.wf(),
        ensures
            n == active_count(self.cursors@),
    {
        let mut n: usize = 0;
        let mut i: usize = 0;
        while i < self.cursors.len()
            invariant
                i <= self.cursors@.len(),
                n == active_count(self.cursors@.subrange(0, i as int)),
                n <= i,
            decreases self.cursors@.len() - i,
        {
            proof {
                assert(self.cursors@.subrange(0, i + 1 as int).drop_last() =~= self.cursors@
                    .subrange(0, i as int));
                assert(self.cursors@.subrange(0, i + 1 as int).last() == self.cursors@[i as int]);
            }
            if self.cursors[i].is_some() {
                n = n + 1;
            }
            i = i + 1;
        }
        proof {
            assert(self.cursors@.subrange(0, self.cursors@.len() as int) =~= self.cursors@);
        }
        n
    }

    /// The occupancy the backpressure policy watches; see `queued_spec`.
    pub fn queued_len(&self) -> (n: usize)
        requires
            self.wf(),
        ensures
            n == self.queued_spec(),
    {
        let mut live: bool = false;
        let mut mn: u64 = u64::MAX;
        let mut i: usize = 0;
        while i < self.cursors.len()
            invariant
                i <= self.cursors@.len(),
                live == (active_count(self.cursors@.subrange(0, i as int)) != 0),
                mn as int == min_active(self.cursors@.subrange(0, i as int)),
            decreases self.cursors@.len() - i,
        {
            proof {
                assert(self.cursors@.subrange(0, i + 1 as int).drop_last() =~= self.cursors@
                    .subrange(0, i as int));
                assert(self.cursors@.subrange(0, i + 1 as int).last() == self.cursors@[i as int]);
            }
            if let Some(x) = self.cursors[i] {
                live = true;
                if x < mn {
                    mn = x;
                }
            }
            i = i + 1;
        }
        proof {
            assert(self.cursors@.subrange(0, self.cursors@.len() as int) =~= self.cursors@);
        }
        if !live {
            0
        } else {
            let base = if mn > self.start {
                mn
            } else {
                self.start
            };
            let here = self.start + self.buf.len() as u64;
            proof {
                assert(here as int == self.end());
                lemma_min_active_bound(self.cursors@, self.end());
                assert(base <= here);
            }
            (here - base) as usize
        }
    }
}

} // verus!
