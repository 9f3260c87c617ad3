use vstd::prelude::*;

verus! {

/// What a record carries.
pub enum Payload {
    /// One complete frame, exactly as read, terminating separator included.
    Content(Vec<u8>),
    /// The producer was forced to pause because the hub was near capacity.
    Backpressure,
    /// The producer reached end of input; no record ever follows this one.
    Eof,
}

/// The unit of distribution: one frame or one synthetic control marker.
pub struct Record {
    /// Monotone time the record was created, in microseconds since start.
    pub timestamp: u64,
    /// For `Content`: its own sequence number, assigned once, starting at 0.
    /// For `Backpressure` and `Eof`: the next still-unassigned number.
    pub seqn: u64,
    pub payload: Payload,
}

/// Mathematical image of a `Payload`.
pub enum PayloadView {
    Content(Seq<u8>),
    Backpressure,
    Eof,
}

/// Mathematical image of a `Record`.
pub struct RecordView {
    pub timestamp: u64,
    pub seqn: u64,
    pub payload: PayloadView,
}

impl View for Payload {
    type V = PayloadView;

    open spec fn view(&self) -> PayloadView {
        match self {
            Payload::Content(b) => PayloadView::Content(b@),
            Payload::Backpressure => PayloadView::Backpressure,
            Payload::Eof => PayloadView::Eof,
        }
    }
}

impl View for Record {
    type V = RecordView;

    open spec fn view(&self) -> RecordView {
        RecordView { timestamp: self.timestamp, seqn: self.seqn, payload: self.payload@ }
    }
}

/// The bytes of a content payload; empty for control payloads.
pub open spec fn content_bytes(p: PayloadView) -> Seq<u8> {
    match p {
        PayloadView::Content(b) => b,
        _ => Seq::empty(),
    }
}

/// The images of a sequence of records.
pub open spec fn recs_view(s: Seq<Record>) -> Seq<RecordView> {
    Seq::new(s.len(), |i: int| s[i]@)
}

impl Record {
    /// An element-for-element copy; the hub and the history ring hand out
    /// copies so that the shared buffers stay immutable.
    pub fn duplicate(&self) -> (r: Record)
        ensures
            r@ == self@,
    {
        let payload = match &self.payload {
            Payload::Content(b) => {
                let mut copy: Vec<u8> = Vec::new();
                let mut i: usize = 0;
                while i < b.len()
                    invariant
                        i <= b.len(),
                        copy@ == b@.subrange(0, i as int),
                    decreases b.len() - i,
                {
                    copy.push(b[i]);
                    assert(copy@ == b@.subrange(0, i + 1 as int));
                    i = i + 1;
                }
                assert(copy@ == b@);
                Payload::Content(copy)
            },
            Payload::Backpressure => Payload::Backpressure,
            Payload::Eof => Payload::Eof,
        };
        Record { timestamp: self.timestamp, seqn: self.seqn, payload }
    }
}

} // verus!
