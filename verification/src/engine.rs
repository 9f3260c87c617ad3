use vstd::prelude::*;
use crate::config::Config;
use crate::history::{take_last, HistoryRing};
use crate::hub::{active_count, Hub, RecvOutcome};
use crate::record::{recs_view, Payload, PayloadView, Record, RecordView};

verus! {

/// The content records among `s`, in order.
pub open spec fn content_of(s: Seq<RecordView>) -> Seq<RecordView>
    decreases s.len(),
{
    if s.len() == 0 {
        Seq::empty()
    } else {
        content_of(s.drop_last()) + (if s.last().payload is Content {
            seq![s.last()]
        } else {
            Seq::empty()
        })
    }
}

pub proof fn lemma_content_of_push(s: Seq<RecordView>, r: RecordView)
    ensures
        r.payload is Content ==> content_of(s.push(r)) == content_of(s) + seq![r],
        !(r.payload is Content) ==> content_of(s.push(r)) == content_of(s),
{
    assert(s.push(r).drop_last() =~= s);
    assert(s.push(r).last() == r);
    if !(r.payload is Content) {
        assert(content_of(s) + Seq::<RecordView>::empty() =~= content_of(s));
    }
}

/// Keeping only the last `h` of a history is the same whether done before
/// or after one more record arrives.
pub proof fn lemma_take_last_push(s: Seq<RecordView>, x: RecordView, h: nat)
    ensures
        take_last(take_last(s, h).push(x), h) == take_last(s.push(x), h),
{
    assert(take_last(take_last(s, h).push(x), h) =~= take_last(s.push(x), h));
}

/// The content records of a run split anywhere: those before the split,
/// then those after it.
pub proof fn lemma_content_of_split(s: Seq<RecordView>, p: int)
    requires
        0 <= p <= s.len(),
    ensures
        content_of(s) == content_of(s.take(p)) + content_of(s.skip(p)),
    decreases s.len(),
{
    if p == s.len() {
        assert(s.take(p) =~= s);
        assert(s.skip(p) =~= Seq::<RecordView>::empty());
        assert(content_of(s.take(p)) + content_of(s.skip(p)) =~= content_of(s));
    } else {
        let s0 = s.drop_last();
        let x = s.last();
        lemma_content_of_split(s0, p);
        assert(s.take(p) =~= s0.take(p));
        assert(s.skip(p) =~= s0.skip(p).push(x));
        lemma_content_of_push(s0.skip(p), x);
        if x.payload is Content {
            assert(content_of(s) == content_of(s0) + seq![x]);
            assert((content_of(s0.take(p)) + content_of(s0.skip(p))) + seq![x]
                =~= content_of(s0.take(p)) + (content_of(s0.skip(p)) + seq![x]));
        } else {
            assert(content_of(s) == content_of(s0));
        }
    }
}

/// What the producer must do after staging a content record.
pub enum Offer {
    /// The record was published; read on.
    Sent,
    /// The hub was at the backpressure threshold: a `Backpressure` marker
    /// was published instead and the record is parked; keep calling
    /// `poll_pending` (sleeping in between) until it goes out.
    MustWait,
}

/// The shared side of the broadcaster: the history ring and the fan-out
/// hub, driven by the producer through the two overload policies.
pub struct Engine {
    pub cfg: Config,
    pub hub: Hub,
    /// Present exactly when a history length is configured.
    pub history: Option<HistoryRing>,
    /// A content record parked by the backpressure policy, not yet
    /// published.
    pub pending: Option<Record>,
    /// How many content records were ever staged.
    pub content_count: u64,
    /// The terminal EOF record went out; nothing follows.
    pub done: bool,
    /// Every content record ever staged, in order.
    pub content_log: Ghost<Seq<RecordView>>,
}

impl Engine {
    pub open spec fn wf(self) -> bool {
        &&& self.cfg.valid()
        &&& self.hub.wf()
        &&& self.hub.capacity == self.cfg.queue_length
        &&& match self.cfg.history_length {
            Some(h) => {
                &&& self.history matches Some(ring)
                &&& self.history->Some_0.cap == h
                &&& self.history->Some_0.wf()
                &&& recs_view(self.history->Some_0.items@) == take_last(
                    self.content_log@,
                    h as nat,
                )
            },
            None => self.history is None,
        }
        &&& forall|i: int|
            0 <= i < self.content_log@.len() ==> (#[trigger] self.content_log@[i]).seqn == i
                && self.content_log@[i].payload is Content
        &&& self.content_count == self.content_log@.len()
        &&& self.content_log@.len() <= u64::MAX
        &&& match self.pending {
            Some(p) => {
                &&& p@.payload is Content
                &&& self.content_log@.len() > 0
                &&& p@ == self.content_log@.last()
                &&& self.cfg.backpressure
                &&& !self.done
            },
            None => true,
        }
        &&& content_of(self.hub.log@) == (if self.pending is Some {
            self.content_log@.drop_last()
        } else {
            self.content_log@
        })
        &&& (self.done ==> self.hub.closed && self.pending is None)
        &&& (!self.done ==> !self.hub.closed)
    }

    pub fn new(cfg: Config) -> (r: Engine)
        requires
            cfg.valid(),
        ensures
            r.wf(),
            r.cfg == cfg,
            r.content_log@ == Seq::<RecordView>::empty(),
            r.hub.log@ == Seq::<RecordView>::empty(),
            r.hub.cursors@ == Seq::<Option<u64>>::empty(),
            r.pending is None,
            !r.done,
    {
        let history = match cfg.history_length {
            Some(h) => Some(HistoryRing::new(h)),
            None => None,
        };
        let hub = Hub::new(cfg.queue_length);
        let r = Engine {
            cfg,
            hub,
            history,
            pending: None,
            content_count: 0,
            done: false,
            content_log: Ghost(Seq::empty()),
        };
        proof {
            assert(content_of(r.hub.log@) =~= Seq::<RecordView>::empty());
            if cfg.history_length is Some {
                assert(recs_view(r.history->Some_0.items@) =~= take_last(
                    r.content_log@,
                    cfg.history_length->Some_0 as nat,
                ));
            }
        }
        r
    }

    /// Stages one content record from the framer: records it in the
    /// history ring, then publishes it — unless the backpressure policy is
    /// on and the hub already holds `queue_length - 1` unread records, in
    /// which case a `Backpressure` marker is published (so subscribers see
    /// the stall) and the record is parked until occupancy drops.
    pub fn offer(&mut self, rec: Record) -> (r: Offer)
        requires
            old(self).wf(),
            !old(self).done,
            old(self).pending is None,
            rec.payload is Content,
            rec@.seqn == old(self).content_count,
            old(self).content_log@.len() + 1 <= u64::MAX,
            old(self).hub.log@.len() + 1 <= u64::MAX,
        ensures
            final(self).wf(),
            final(self).cfg == old(self).cfg,
            !final(self).done,
            final(self).content_log@ == old(self).content_log@.push(rec@),
            final(self).hub.cursors@ == old(self).hub.cursors@,
            final(self).hub.capacity == old(self).hub.capacity,
            (r == Offer::MustWait <==> old(self).cfg.backpressure && old(self).hub.queued_spec()
                >= old(self).cfg.queue_length - 1),
            r == Offer::Sent ==> final(self).pending is None && final(self).hub.log@ == old(
                self,
            ).hub.log@.push(rec@),
            r == Offer::MustWait ==> (final(self).pending matches Some(p) && p@ == rec@)
                && final(self).hub.log@ == old(self).hub.log@.push(
                RecordView { timestamp: rec.timestamp, seqn: rec.seqn, payload: PayloadView::Backpressure },
            ),
    {
        let ghost rv = rec@;
        match &mut self.history {
            Some(ring) => {
                ring.push(rec.duplicate());
                proof {
                    lemma_take_last_push(
                        old(self).content_log@,
                        rv,
                        old(self).cfg.history_length->Some_0 as nat,
                    );
                }
            },
            None => {},
        }
        let go = if !self.cfg.backpressure {
            true
        } else {
            let ql = self.hub.queued_len();
            ql < self.cfg.queue_length - 1
        };
        if go {
            self.hub.publish(rec);
            proof {
                lemma_content_of_push(old(self).hub.log@, rv);
            }
        } else {
            let bp = Record { timestamp: rec.timestamp, seqn: rec.seqn, payload: Payload::Backpressure };
            let ghost bv = bp@;
            self.hub.publish(bp);
            self.pending = Some(rec);
            proof {
                lemma_content_of_push(old(self).hub.log@, bv);
            }
        }
        self.content_count = self.content_count + 1;
        self.content_log = Ghost(self.content_log@.push(rv));
        proof {
            if go {
                assert(content_of(self.hub.log@) =~= self.content_log@);
            } else {
                assert(self.content_log@.drop_last() =~= old(self).content_log@);
            }
        }
        if go {
            Offer::Sent
        } else {
            Offer::MustWait
        }
    }

    /// One try at publishing the parked record. It goes out exactly when
    /// the hub's occupancy has dropped below `queue_length - 1`; the
    /// producer stays blocked otherwise, so no content is ever published
    /// over a saturated hub while backpressure is on.
    pub fn poll_pending(&mut self) -> (sent: bool)
        requires
            old(self).wf(),
            old(self).pending is Some,
            old(self).hub.log@.len() + 1 <= u64::MAX,
        ensures
            final(self).wf(),
            final(self).cfg == old(self).cfg,
            final(self).content_log@ == old(self).content_log@,
            final(self).hub.cursors@ == old(self).hub.cursors@,
            final(self).hub.capacity == old(self).hub.capacity,
            final(self).done == old(self).done,
            (sent <==> old(self).hub.queued_spec() < old(self).cfg.queue_length - 1),
            sent ==> final(self).pending is None && final(self).hub.log@ == old(
                self,
            ).hub.log@.push(old(self).pending->Some_0@),
            !sent ==> final(self).pending == old(self).pending && final(self).hub.log@ == old(
                self,
            ).hub.log@,
    {
        let ql = self.hub.queued_len();
        if ql < self.cfg.queue_length - 1 {
            let parked = self.pending.take();
            match parked {
                Some(rec) => {
                    let ghost rv = rec@;
                    self.hub.publish(rec);
                    proof {
                        lemma_content_of_push(old(self).hub.log@, rv);
                        assert(rv == old(self).content_log@.last());
                        assert(content_of(old(self).hub.log@) == old(self).content_log@.drop_last());
                        assert(old(self).content_log@.drop_last() + seq![rv] =~= old(
                            self,
                        ).content_log@);
                        assert(content_of(self.hub.log@) == self.content_log@);
                    }
                    true
                },
                None => {
                    false
                },
            }
        } else {
            false
        }
    }

    /// Publishes the one terminal EOF record, carrying the next unassigned
    /// sequence number, and closes the hub; nothing is ever emitted after.
    pub fn finish(&mut self, now: u64)
        requires
            old(self).wf(),
            !old(self).done,
            old(self).pending is None,
            old(self).hub.log@.len() + 1 <= u64::MAX,
        ensures
            final(self).wf(),
            final(self).cfg == old(self).cfg,
            final(self).content_log@ == old(self).content_log@,
            final(self).hub.cursors@ == old(self).hub.cursors@,
            final(self).done,
            final(self).hub.log@ == old(self).hub.log@.push(
                RecordView {
                    timestamp: now,
                    seqn: old(self).content_count,
                    payload: PayloadView::Eof,
                },
            ),
    {
        let eof = Record { timestamp: now, seqn: self.content_count, payload: Payload::Eof };
        let ghost ev = eof@;
        self.hub.publish(eof);
        self.hub.close();
        self.done = true;
        proof {
            lemma_content_of_push(old(self).hub.log@, ev);
        }
    }

    /// Registers one new connection: a subscription positioned after
    /// everything already published, plus — when history is configured — a
    /// point-in-time copy of exactly the retained recent content records,
    /// taken before any network write happens.
    pub fn attach(&mut self) -> (r: (usize, Option<Vec<Record>>))
        requires
            old(self).wf(),
            old(self).hub.cursors@.len() + 1 <= usize::MAX,
        ensures
            final(self).wf(),
            final(self).cfg == old(self).cfg,
            final(self).content_log@ == old(self).content_log@,
            final(self).hub.log@ == old(self).hub.log@,
            final(self).pending == old(self).pending,
            final(self).done == old(self).done,
            final(self).hub.cursors@ == old(self).hub.cursors@.push(
                Some(old(self).hub.log@.len() as u64),
            ),
            r.0 == old(self).hub.cursors@.len(),
            match old(self).cfg.history_length {
                Some(h) => r.1 matches Some(snap) && recs_view(snap@) == take_last(
                    old(self).content_log@,
                    h as nat,
                ),
                None => r.1 is None,
            },
    {
        let id = self.hub.subscribe();
        let snap = match &self.history {
            Some(ring) => Some(ring.snapshot()),
            None => None,
        };
        (id, snap)
    }

    /// Drops a connection's subscription.
    pub fn detach(&mut self, id: usize)
        requires
            old(self).wf(),
            id < old(self).hub.cursors@.len(),
        ensures
            final(self).wf(),
            final(self).cfg == old(self).cfg,
            final(self).content_log@ == old(self).content_log@,
            final(self).hub.log@ == old(self).hub.log@,
            final(self).hub.cursors@ == old(self).hub.cursors@.update(id as int, None),
    {
        self.hub.unsubscribe(id);
    }

    /// Polls subscription `id`; see `Hub::recv` for the exact outcomes.
    pub fn recv_for(&mut self, id: usize) -> (r: RecvOutcome)
        requires
            old(self).wf(),
            id < old(self).hub.cursors@.len(),
            old(self).hub.cursors@[id as int] is Some,
        ensures
            final(self).wf(),
            final(self).cfg == old(self).cfg,
            final(self).content_log@ == old(self).content_log@,
            final(self).hub.log@ == old(self).hub.log@,
            final(self).done == old(self).done,
            final(self).hub.cursors@.len() == old(self).hub.cursors@.len(),
            forall|i: int|
                0 <= i < old(self).hub.cursors@.len() && i != id ==> final(self).hub.cursors@[i]
                    == old(self).hub.cursors@[i],
            ({
                let cur = old(self).hub.cur_of(id as int);
                let lo = old(self).hub.start;
                &&& (cur < lo ==> r == RecvOutcome::Lagged((lo - cur) as u64)
                    && final(self).hub.cursors@[id as int] == Some(lo))
                &&& (lo <= cur && cur < old(self).hub.end() ==> (r matches RecvOutcome::Msg(m)
                    && m@ == old(self).hub.log@[cur as int]) && final(self).hub.cursors@[id as int]
                    == Some((cur + 1) as u64))
                &&& (cur == old(self).hub.end() && old(self).hub.closed ==> r
                    == RecvOutcome::Closed && final(self).hub.cursors@[id as int] == old(
                    self,
                ).hub.cursors@[id as int])
                &&& (cur == old(self).hub.end() && !old(self).hub.closed ==> r
                    == RecvOutcome::Empty && final(self).hub.cursors@[id as int] == old(
                    self,
                ).hub.cursors@[id as int])
            }),
    {
        self.hub.recv(id)
    }

    /// Whether subscription `id` has read everything published so far;
    /// the consumer flushes its transport exactly then.
    pub fn is_drained_for(&self, id: usize) -> (r: bool)
        requires
            self.wf(),
            id < self.hub.cursors@.len(),
            self.hub.cursors@[id as int] is Some,
        ensures
            r == (self.hub.cur_of(id as int) as int == self.hub.end()),
    {
        self.hub.is_drained(id)
    }

    /// How many subscriptions are live.
    pub fn reader_count(&self) -> (n: usize)
        requires
            self.wf(),
        ensures
            n == active_count(self.hub.cursors@),
    {
        self.hub.receiver_count()
    }

    /// Whether the producer should read at all right now: with
    /// `require_observer` enabled, reads are skipped — consuming no
    /// producer input — while no subscriber is connected.
    pub fn should_read(&self) -> (r: bool)
        requires
            self.wf(),
        ensures
            r == (!self.cfg.require_observer || active_count(self.hub.cursors@) != 0),
    {
        if self.cfg.require_observer {
            let n = self.hub.receiver_count();
            n > 0
        } else {
            true
        }
    }
}

/// What a subscription positioned at publish index `p` has ahead of it:
/// the live stream's content records are exactly the staged content
/// records from one index onward, in order — so, past the session's
/// sequence floor, a client sees every produced record exactly once, with
/// no duplicate and no gap, and in strictly increasing sequence order.
pub proof fn lemma_live_content_from(e: Engine, p: int)
    requires
        e.wf(),
        e.pending is None,
        0 <= p <= e.hub.log@.len(),
    ensures
        content_of(e.hub.log@.take(p)).len() <= e.content_log@.len(),
        content_of(e.hub.log@.skip(p)) == e.content_log@.skip(
            content_of(e.hub.log@.take(p)).len() as int,
        ),
{
    lemma_content_of_split(e.hub.log@, p);
    let a = content_of(e.hub.log@.take(p));
    let b = content_of(e.hub.log@.skip(p));
    assert(a + b == e.content_log@);
    assert(b =~= e.content_log@.skip(a.len() as int));
}

/// The producer's sleep while blocked by the backpressure policy: doubles
/// from 1 time unit up to a ceiling of 65536.
pub fn next_backoff(w: u64) -> (r: u64)
    requires
        1 <= w <= 131072,
    ensures
        r == (if w < 65536 {
            2 * w
        } else {
            w as int
        }),
        1 <= r <= 131072,
{
    if w < 65536 {
        2 * w
    } else {
        w
    }
}

} // verus!
