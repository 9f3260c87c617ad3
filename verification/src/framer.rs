use vstd::prelude::*;
use crate::record::{Payload, PayloadView, Record};

verus! {

/// A complete frame for separator `sep` and cutoff `max`: its last byte
/// stands at a cut position (it is the separator, or the frame has reached
/// `max + 1` bytes), and no earlier byte does.
pub open spec fn proper_frame(sep: u8, max: nat, f: Seq<u8>) -> bool {
    &&& f.len() >= 1
    &&& (f.last() == sep || f.len() - 1 == max)
    &&& forall|j: int| 0 <= j < f.len() - 1 ==> #[trigger] f[j] != sep && j != max
}

/// No cut position anywhere: what may stay buffered between reads.
pub open spec fn no_cut(sep: u8, max: nat, b: Seq<u8>) -> bool {
    forall|j: int| 0 <= j < b.len() ==> #[trigger] b[j] != sep && j != max
}

/// All frames, concatenated in order of emission.
pub open spec fn concat_frames(fs: Seq<Seq<u8>>) -> Seq<u8>
    decreases fs.len(),
{
    if fs.len() == 0 {
        Seq::empty()
    } else {
        fs[0] + concat_frames(fs.drop_first())
    }
}

pub proof fn lemma_concat_frames_push(fs: Seq<Seq<u8>>, f: Seq<u8>)
    ensures
        concat_frames(fs.push(f)) == concat_frames(fs) + f,
    decreases fs.len(),
{
    if fs.len() == 0 {
        assert(fs.push(f)[0] == f);
        assert(fs.push(f).drop_first() =~= Seq::<Seq<u8>>::empty());
        assert(concat_frames(Seq::<Seq<u8>>::empty()) == Seq::<u8>::empty());
        assert(f + Seq::<u8>::empty() =~= f);
        assert(concat_frames(fs) + f =~= f);
    } else {
        let fs2 = fs.drop_first();
        assert(fs.push(f).drop_first() =~= fs2.push(f));
        lemma_concat_frames_push(fs2, f);
        assert(fs.push(f)[0] == fs[0]);
        assert(concat_frames(fs.push(f)) == fs[0] + (concat_frames(fs2) + f));
        assert(fs[0] + (concat_frames(fs2) + f) =~= (fs[0] + concat_frames(fs2)) + f);
    }
}

/// Splits a continuous byte stream into frames on a separator byte or at a
/// length cutoff, assigning each frame the next sequence number.
pub struct Framer {
    /// The separator byte.
    pub sep: u8,
    /// A frame with no separator is cut once it spans this relative
    /// position, so a cut frame holds at most `max_frame + 1` bytes.
    pub max_frame: usize,
    /// Bytes read but not yet part of any complete frame.
    pub buf: Vec<u8>,
    /// The sequence number the next content record will carry.
    pub next_seqn: u64,
    /// Every byte ever fed in.
    pub input: Ghost<Seq<u8>>,
    /// Every frame ever emitted, in order.
    pub frames: Ghost<Seq<Seq<u8>>>,
}

impl Framer {
    /// The framer's invariant: the frames emitted so far, in order,
    /// followed by the buffered rest, are exactly the input; the rest holds
    /// no complete frame; every emitted frame is proper; and the next
    /// sequence number equals the count of frames emitted so far.
    pub open spec fn wf(self) -> bool {
        &&& concat_frames(self.frames@) + self.buf@ == self.input@
        &&& no_cut(self.sep, self.max_frame as nat, self.buf@)
        &&& forall|k: int|
            0 <= k < self.frames@.len() ==> proper_frame(
                self.sep,
                self.max_frame as nat,
                #[trigger] self.frames@[k],
            )
        &&& self.next_seqn == self.frames@.len()
    }

    pub fn new(sep: u8, max_frame: usize) -> (r: Framer)
        ensures
            r.wf(),
            r.sep == sep,
            r.max_frame == max_frame,
            r.input@ == Seq::<u8>::empty(),
            r.frames@ == Seq::<Seq<u8>>::empty(),
            r.buf@ == Seq::<u8>::empty(),
            r.next_seqn == 0,
    {
        let r = Framer {
            sep,
            max_frame,
            buf: Vec::new(),
            next_seqn: 0,
            input: Ghost(Seq::empty()),
            frames: Ghost(Seq::empty()),
        };
        proof {
            assert(concat_frames(r.frames@) + r.buf@ =~= r.input@);
        }
        r
    }

    /// Feeds one chunk read from the producer, timestamped `now`, and
    /// returns the content records for every frame completed by it, in
    /// order, each carrying the next sequence number in turn.
    pub fn feed(&mut self, chunk: &Vec<u8>, now: u64) -> (out: Vec<Record>)
        requires
            old(self).wf(),
            old(self).buf@.len() + chunk@.len() <= usize::MAX,
            old(self).next_seqn + old(self).buf@.len() + chunk@.len() <= u64::MAX,
        ensures
            final(self).wf(),
            final(self).sep == old(self).sep,
            final(self).max_frame == old(self).max_frame,
            final(self).input@ == old(self).input@ + chunk@,
            final(self).frames@.len() == old(self).frames@.len() + out@.len(),
            forall|i: int|
                0 <= i < old(self).frames@.len() ==> final(self).frames@[i] == old(
                    self,
                ).frames@[i],
            forall|i: int|
                0 <= i < out@.len() ==> {
                    &&& (#[trigger] out@[i]).payload@ == PayloadView::Content(
                        final(self).frames@[old(self).frames@.len() + i],
                    )
                    &&& out@[i].seqn == old(self).next_seqn + i
                    &&& out@[i].timestamp == now
                },
            final(self).next_seqn == old(self).next_seqn + out@.len(),
    {
        let mut k: usize = 0;
        while k < chunk.len()
            invariant
                k <= chunk.len(),
                self.buf@ == old(self).buf@ + chunk@.subrange(0, k as int),
                self.buf@.len() == old(self).buf@.len() + k,
                self.sep == old(self).sep,
                self.max_frame == old(self).max_frame,
                self.next_seqn == old(self).next_seqn,
                self.input@ == old(self).input@,
                self.frames@ == old(self).frames@,
                old(self).buf@.len() + chunk@.len() <= usize::MAX,
            decreases chunk.len() - k,
        {
            self.buf.push(chunk[k]);
            assert(self.buf@ =~= old(self).buf@ + chunk@.subrange(0, k + 1 as int));
            k = k + 1;
        }
        assert(self.buf@ =~= old(self).buf@ + chunk@);
        self.input = Ghost(self.input@ + chunk@);

        let ghost base_frames = old(self).frames@;
        let ghost base_seqn = old(self).next_seqn;
        let mut out: Vec<Record> = Vec::new();
        let mut start: usize = 0;
        let mut scanning = true;
        while scanning
            invariant
                self.sep == old(self).sep,
                self.max_frame == old(self).max_frame,
                self.buf@ == old(self).buf@ + chunk@,
                self.input@ == old(self).input@ + chunk@,
                start <= self.buf@.len(),
                out@.len() <= start,
                self.frames@.len() == base_frames.len() + out@.len(),
                forall|i: int| 0 <= i < base_frames.len() ==> self.frames@[i] == base_frames[i],
                concat_frames(self.frames@) == concat_frames(base_frames) + self.buf@.subrange(
                    0,
                    start as int,
                ),
                forall|j: int|
                    0 <= j < self.frames@.len() ==> proper_frame(
                        self.sep,
                        self.max_frame as nat,
                        #[trigger] self.frames@[j],
                    ),
                forall|i: int|
                    0 <= i < out@.len() ==> {
                        &&& (#[trigger] out@[i]).payload@ == PayloadView::Content(
                            self.frames@[base_frames.len() + i],
                        )
                        &&& out@[i].seqn == base_seqn + i
                        &&& out@[i].timestamp == now
                    },
                self.next_seqn == base_seqn + out@.len(),
                base_seqn == base_frames.len(),
                base_seqn + self.buf@.len() <= u64::MAX,
                !scanning ==> no_cut(
                    self.sep,
                    self.max_frame as nat,
                    self.buf@.subrange(start as int, self.buf@.len() as int),
                ),
            decreases self.buf@.len() - start, (if scanning {
                1int
            } else {
                0int
            }),
        {
            match find_cut(&self.buf, start, self.sep, self.max_frame) {
                Some(j) => {
                    let blen = self.buf.len();
                    assert(start + j < blen);
                    let frame = copy_range(&self.buf, start, start + j + 1);
                    let ghost fview = frame@;
                    proof {
                        assert(fview.len() == j + 1);
                        assert(fview.last() == self.buf@[start + j]);
                        assert forall|t: int| 0 <= t < fview.len() - 1 implies #[trigger] fview[t]
                            != self.sep && t != self.max_frame as nat by {
                            assert(fview[t] == self.buf@[start + t]);
                        }
                        assert(proper_frame(self.sep, self.max_frame as nat, fview));
                    }
                    let rec = Record {
                        timestamp: now,
                        seqn: self.next_seqn,
                        payload: Payload::Content(frame),
                    };
                    out.push(rec);
                    proof {
                        lemma_concat_frames_push(self.frames@, fview);
                    }
                    self.frames = Ghost(self.frames@.push(fview));
                    self.next_seqn = self.next_seqn + 1;
                    let new_start = start + j + 1;
                    proof {
                        assert(concat_frames(base_frames) + self.buf@.subrange(0, start as int)
                            + fview =~= concat_frames(base_frames) + self.buf@.subrange(
                            0,
                            new_start as int,
                        ));
                    }
                    start = new_start;
                },
                None => {
                    proof {
                        let sub = self.buf@.subrange(start as int, self.buf@.len() as int);
                        assert forall|t: int| 0 <= t < sub.len() implies #[trigger] sub[t]
                            != self.sep && t != self.max_frame as nat by {
                            assert(sub[t] == self.buf@[start + t]);
                        }
                        assert(no_cut(self.sep, self.max_frame as nat, sub));
                    }
                    scanning = false;
                },
            }
        }
        let rest = copy_range(&self.buf, start, self.buf.len());
        self.buf = rest;
        proof {
            assert(concat_frames(self.frames@) + self.buf@ =~= self.input@);
        }
        out
    }
}

/// The relative position of the first cut at or after `from`: the smallest
/// `j` with `v[from + j] == sep` or `j == max`, if the buffer reaches it.
fn find_cut(v: &Vec<u8>, from: usize, sep: u8, max: usize) -> (r: Option<usize>)
    requires
        from <= v@.len(),
    ensures
        match r {
            Some(j) => {
                &&& from + j < v@.len()
                &&& (v@[from + j] == sep || j == max)
                &&& forall|t: int| 0 <= t < j ==> #[trigger] v@[from + t] != sep && t != max
            },
            None => forall|t: int|
                0 <= t < v@.len() - from ==> #[trigger] v@[from + t] != sep && t != max,
        },
{
    let n = v.len();
    let mut j: usize = 0;
    while from + j < n
        invariant
            n == v@.len(),
            from + j <= n,
            forall|t: int| 0 <= t < j ==> #[trigger] v@[from + t] != sep && t != max,
        decreases n - from - j,
    {
        if v[from + j] == sep || j == max {
            return Some(j);
        }
        j = j + 1;
    }
    None
}

/// A copy of `v[a..b]`.
fn copy_range(v: &Vec<u8>, a: usize, b: usize) -> (r: Vec<u8>)
    requires
        a <= b <= v@.len(),
    ensures
        r@ == v@.subrange(a as int, b as int),
{
    let mut r: Vec<u8> = Vec::new();
    let mut i: usize = a;
    while i < b
        invariant
            a <= i <= b <= v@.len(),
            r@ == v@.subrange(a as int, i as int),
        decreases b - i,
    {
        r.push(v[i]);
        assert(r@ =~= v@.subrange(a as int, i + 1 as int));
        i = i + 1;
    }
    r
}

/// Splitting loses nothing: the frames emitted so far, in order, followed
/// by the bytes still buffered, are exactly the bytes fed in. The optional
/// tee copies the same input verbatim, so reassembling the frames in
/// sequence order reproduces the tee output byte for byte.
pub proof fn lemma_reassembly(f: Framer)
    requires
        f.wf(),
    ensures
        concat_frames(f.frames@) + f.buf@ == f.input@,
{
}

/// Sequence numbers form a contiguous run starting at 0 with no gaps or
/// repeats, whatever the read chunking: the record cut for a frame carries
/// exactly the count of frames emitted before it (see `Framer::feed`), and
/// that count only ever grows by 1.
pub proof fn lemma_contiguous_seqn(f: Framer)
    requires
        f.wf(),
    ensures
        f.next_seqn == f.frames@.len(),
{
}

/// How the producer reacts to a read error.
pub enum ReadErrorClass {
    /// The read was interrupted; harmless.
    Interrupted,
    /// The input is in non-blocking mode and had nothing yet.
    WouldBlock,
    /// Any other error; the stream is treated as truncated but ended.
    Other,
}

/// What the producer loop does next after a read error.
pub enum ReadErrorAction {
    /// Retry the read immediately.
    RetryNow,
    /// Sleep briefly and retry; warn the operator the first time.
    SleepAndRetry { warn: bool },
    /// Stop reading and emit the terminal EOF record.
    Finish,
}

/// The retry policy for producer read errors: interrupted reads retry at
/// once; would-block reads sleep briefly and warn exactly once; anything
/// else ends input.
pub fn on_read_error(class: &ReadErrorClass, warned_before: bool) -> (r: ReadErrorAction)
    ensures
        class is Interrupted ==> r == ReadErrorAction::RetryNow,
        class is WouldBlock ==> r == (ReadErrorAction::SleepAndRetry { warn: !warned_before }),
        class is Other ==> r == ReadErrorAction::Finish,
{
    match class {
        ReadErrorClass::Interrupted => ReadErrorAction::RetryNow,
        ReadErrorClass::WouldBlock => ReadErrorAction::SleepAndRetry { warn: !warned_before },
        ReadErrorClass::Other => ReadErrorAction::Finish,
    }
}

} // verus!
