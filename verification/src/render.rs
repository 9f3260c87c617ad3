use vstd::prelude::*;
use crate::config::Config;
use crate::record::{content_bytes, Payload, Record};

verus! {

/// The decimal digits of `n`, as ASCII bytes, most significant first.
pub open spec fn dec_digits(n: nat) -> Seq<u8>
    decreases n,
{
    if n < 10 {
        seq![(48 + n) as u8]
    } else {
        dec_digits(n / 10).push((48 + n % 10) as u8)
    }
}

/// `k` ASCII zeros.
pub open spec fn zeros(k: nat) -> Seq<u8> {
    Seq::new(k, |i: int| 48u8)
}

/// The decimal digits of `n`, zero-padded on the left to at least 6 bytes.
pub open spec fn dec_padded6(n: nat) -> Seq<u8> {
    if dec_digits(n).len() >= 6 {
        dec_digits(n)
    } else {
        zeros((6 - dec_digits(n).len()) as nat) + dec_digits(n)
    }
}

/// A rendered timestamp: padded seconds, a dot, padded microseconds, then
/// the annotation separator (tab before content, space before annotations).
pub open spec fn timestamp_bytes(elapsed: u64, after: u8) -> Seq<u8> {
    dec_padded6((elapsed / 1000000) as nat) + seq![46u8] + dec_padded6((elapsed % 1000000) as nat)
        + seq![after]
}

/// `"OVERRUN "` as bytes.
pub open spec fn overrun_tag() -> Seq<u8> {
    seq![79u8, 86u8, 69u8, 82u8, 82u8, 85u8, 78u8, 32u8]
}

/// `"BACKPRESSURE"` as bytes.
pub open spec fn backpressure_tag() -> Seq<u8> {
    seq![66u8, 65u8, 67u8, 75u8, 80u8, 82u8, 69u8, 83u8, 83u8, 85u8, 82u8, 69u8]
}

/// `"EOF"` as bytes.
pub open spec fn eof_tag() -> Seq<u8> {
    seq![69u8, 79u8, 70u8]
}

/// `"HELLO"` as bytes.
pub open spec fn hello_tag() -> Seq<u8> {
    seq![72u8, 69u8, 76u8, 76u8, 79u8]
}

/// One content line of the wire format: optional timestamp prefix (ended by
/// a tab), optional sequence number (ended by a tab), then the frame bytes
/// verbatim, separator included.
pub open spec fn content_line(
    show_ts: bool,
    show_seqn: bool,
    elapsed: u64,
    seqn: u64,
    frame: Seq<u8>,
) -> Seq<u8> {
    (if show_ts {
        timestamp_bytes(elapsed, 9u8)
    } else {
        Seq::empty()
    }) + (if show_seqn {
        dec_digits(seqn as nat).push(9u8)
    } else {
        Seq::empty()
    }) + frame
}

/// One annotation line: optional timestamp prefix (ended by a space, to
/// tell annotations from content), the tag, then the record separator.
pub open spec fn annotation_line(show_ts: bool, elapsed: u64, tag: Seq<u8>, sep: u8) -> Seq<u8> {
    (if show_ts {
        timestamp_bytes(elapsed, 32u8)
    } else {
        Seq::empty()
    }) + tag + seq![sep]
}

/// `OVERRUN <count>` annotation line.
pub open spec fn overrun_line(show_ts: bool, elapsed: u64, count: u64, sep: u8) -> Seq<u8> {
    annotation_line(show_ts, elapsed, overrun_tag() + dec_digits(count as nat), sep)
}

/// `BACKPRESSURE` annotation line.
pub open spec fn backpressure_line(show_ts: bool, elapsed: u64, sep: u8) -> Seq<u8> {
    annotation_line(show_ts, elapsed, backpressure_tag(), sep)
}

/// `EOF` annotation line.
pub open spec fn eof_line(show_ts: bool, elapsed: u64, sep: u8) -> Seq<u8> {
    annotation_line(show_ts, elapsed, eof_tag(), sep)
}

/// `HELLO` annotation line.
pub open spec fn hello_line(show_ts: bool, elapsed: u64, sep: u8) -> Seq<u8> {
    annotation_line(show_ts, elapsed, hello_tag(), sep)
}

/// Appends `src` to `dst` unchanged.
pub fn append_bytes(dst: &mut Vec<u8>, src: &Vec<u8>)
    ensures
        final(dst)@ == old(dst)@ + src@,
{
    let mut i: usize = 0;
    while i < src.len()
        invariant
            i <= src.len(),
            dst@ == old(dst)@ + src@.subrange(0, i as int),
        decreases src.len() - i,
    {
        dst.push(src[i]);
        assert(dst@ =~= old(dst)@ + src@.subrange(0, i + 1 as int));
        i = i + 1;
    }
    assert(dst@ =~= old(dst)@ + src@);
}

/// The decimal digits of `n`, most significant first.
pub fn u64_to_dec(n: u64) -> (r: Vec<u8>)
    ensures
        r@ == dec_digits(n as nat),
    decreases n,
{
    if n < 10 {
        let mut v: Vec<u8> = Vec::new();
        v.push(48 + n as u8);
        assert(v@ =~= dec_digits(n as nat));
        v
    } else {
        let mut v = u64_to_dec(n / 10);
        v.push(48 + (n % 10) as u8);
        v
    }
}

/// The decimal digits of `n`, zero-padded on the left to at least 6 bytes.
pub fn u64_to_dec_pad6(n: u64) -> (r: Vec<u8>)
    ensures
        r@ == dec_padded6(n as nat),
{
    let d = u64_to_dec(n);
    if d.len() >= 6 {
        d
    } else {
        let pad: usize = 6 - d.len();
        let mut r: Vec<u8> = Vec::new();
        let mut i: usize = 0;
        while i < pad
            invariant
                i <= pad,
                r@ == zeros(i as nat),
            decreases pad - i,
        {
            r.push(48);
            assert(r@ =~= zeros((i + 1) as nat));
            i = i + 1;
        }
        append_bytes(&mut r, &d);
        assert(r@ =~= dec_padded6(n as nat));
        r
    }
}

/// Renders timestamps relative to one fixed starting instant.
pub struct TimestampPrinter {
    /// The starting instant, in microseconds on the monotone clock.
    pub begin: u64,
}

impl TimestampPrinter {
    /// A printer whose timestamps are measured from `begin`.
    pub fn new(begin: u64) -> (r: TimestampPrinter)
        ensures
            r.begin == begin,
    {
        TimestampPrinter { begin }
    }

    /// Appends the rendered timestamp of the instant `ts` to `out`.
    pub fn emit(&self, out: &mut Vec<u8>, ts: u64, after: u8)
        requires
            self.begin <= ts,
        ensures
            final(out)@ == old(out)@ + timestamp_bytes((ts - self.begin) as u64, after),
    {
        let e = ts - self.begin;
        let secs = u64_to_dec_pad6(e / 1000000);
        append_bytes(out, &secs);
        out.push(46);
        let micros = u64_to_dec_pad6(e % 1000000);
        append_bytes(out, &micros);
        out.push(after);
        assert(out@ =~= old(out)@ + timestamp_bytes(e, after));
    }
}

/// Appends `"OVERRUN "` to `out`.
fn push_overrun_tag(out: &mut Vec<u8>)
    ensures
        final(out)@ == old(out)@ + overrun_tag(),
{
    out.push(79);
    out.push(86);
    out.push(69);
    out.push(82);
    out.push(82);
    out.push(85);
    out.push(78);
    out.push(32);
    assert(out@ =~= old(out)@ + overrun_tag());
}

/// Appends `"BACKPRESSURE"` to `out`.
fn push_backpressure_tag(out: &mut Vec<u8>)
    ensures
        final(out)@ == old(out)@ + backpressure_tag(),
{
    out.push(66);
    out.push(65);
    out.push(67);
    out.push(75);
    out.push(80);
    out.push(82);
    out.push(69);
    out.push(83);
    out.push(83);
    out.push(85);
    out.push(82);
    out.push(69);
    assert(out@ =~= old(out)@ + backpressure_tag());
}

/// Appends `"EOF"` to `out`.
fn push_eof_tag(out: &mut Vec<u8>)
    ensures
        final(out)@ == old(out)@ + eof_tag(),
{
    out.push(69);
    out.push(79);
    out.push(70);
    assert(out@ =~= old(out)@ + eof_tag());
}

/// Appends `"HELLO"` to `out`.
fn push_hello_tag(out: &mut Vec<u8>)
    ensures
        final(out)@ == old(out)@ + hello_tag(),
{
    out.push(72);
    out.push(69);
    out.push(76);
    out.push(76);
    out.push(79);
    assert(out@ =~= old(out)@ + hello_tag());
}

/// Appends one rendered content line for `rec` to `out`.
pub fn emit_content_line(out: &mut Vec<u8>, tsp: &TimestampPrinter, cfg: &Config, rec: &Record)
    requires
        rec.payload is Content,
        tsp.begin <= rec.timestamp,
    ensures
        final(out)@ == old(out)@ + content_line(
            cfg.timestamps,
            cfg.print_sequence_numbers,
            (rec.timestamp - tsp.begin) as u64,
            rec.seqn,
            content_bytes(rec@.payload),
        ),
{
    if cfg.timestamps {
        tsp.emit(out, rec.timestamp, 9);
    }
    if cfg.print_sequence_numbers {
        let d = u64_to_dec(rec.seqn);
        append_bytes(out, &d);
        out.push(9);
    }
    if let Payload::Content(b) = &rec.payload {
        append_bytes(out, b);
    }
    assert(out@ =~= old(out)@ + content_line(
        cfg.timestamps,
        cfg.print_sequence_numbers,
        (rec.timestamp - tsp.begin) as u64,
        rec.seqn,
        content_bytes(rec@.payload),
    ));
}

/// Appends one `OVERRUN <count>` annotation line to `out`.
pub fn emit_overrun_line(
    out: &mut Vec<u8>,
    tsp: &TimestampPrinter,
    cfg: &Config,
    now: u64,
    count: u64,
)
    requires
        tsp.begin <= now,
    ensures
        final(out)@ == old(out)@ + overrun_line(
            cfg.timestamps,
            (now - tsp.begin) as u64,
            count,
            cfg.sep_spec(),
        ),
{
    if cfg.timestamps {
        tsp.emit(out, now, 32);
    }
    push_overrun_tag(out);
    let d = u64_to_dec(count);
    append_bytes(out, &d);
    out.push(cfg.separator());
    assert(out@ =~= old(out)@ + overrun_line(
        cfg.timestamps,
        (now - tsp.begin) as u64,
        count,
        cfg.sep_spec(),
    ));
}

/// Appends one `BACKPRESSURE` annotation line to `out`.
pub fn emit_backpressure_line(out: &mut Vec<u8>, tsp: &TimestampPrinter, cfg: &Config, ts: u64)
    requires
        tsp.begin <= ts,
    ensures
        final(out)@ == old(out)@ + backpressure_line(
            cfg.timestamps,
            (ts - tsp.begin) as u64,
            cfg.sep_spec(),
        ),
{
    if cfg.timestamps {
        tsp.emit(out, ts, 32);
    }
    push_backpressure_tag(out);
    out.push(cfg.separator());
    assert(out@ =~= old(out)@ + backpressure_line(
        cfg.timestamps,
        (ts - tsp.begin) as u64,
        cfg.sep_spec(),
    ));
}

/// Appends one `EOF` annotation line to `out`.
pub fn emit_eof_line(out: &mut Vec<u8>, tsp: &TimestampPrinter, cfg: &Config, now: u64)
    requires
        tsp.begin <= now,
    ensures
        final(out)@ == old(out)@ + eof_line(
            cfg.timestamps,
            (now - tsp.begin) as u64,
            cfg.sep_spec(),
        ),
{
    if cfg.timestamps {
        tsp.emit(out, now, 32);
    }
    push_eof_tag(out);
    out.push(cfg.separator());
    assert(out@ =~= old(out)@ + eof_line(
        cfg.timestamps,
        (now - tsp.begin) as u64,
        cfg.sep_spec(),
    ));
}

/// Appends one `HELLO` annotation line to `out`.
pub fn emit_hello_line(out: &mut Vec<u8>, tsp: &TimestampPrinter, cfg: &Config, now: u64)
    requires
        tsp.begin <= now,
    ensures
        final(out)@ == old(out)@ + hello_line(
            cfg.timestamps,
            (now - tsp.begin) as u64,
            cfg.sep_spec(),
        ),
{
    if cfg.timestamps {
        tsp.emit(out, now, 32);
    }
    push_hello_tag(out);
    out.push(cfg.separator());
    assert(out@ =~= old(out)@ + hello_line(
        cfg.timestamps,
        (now - tsp.begin) as u64,
        cfg.sep_spec(),
    ));
}

} // verus!
