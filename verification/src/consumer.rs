use vstd::prelude::*;
use crate::config::Config;
use crate::engine::Engine;
use crate::history::take_last;
use crate::hub::RecvOutcome;
use crate::record::{content_bytes, recs_view, Record, RecordView};
use crate::render::{
    backpressure_line, content_line, emit_backpressure_line, emit_content_line, emit_eof_line,
    emit_hello_line, emit_overrun_line, eof_line, hello_line, overrun_line, TimestampPrinter,
};

verus! {

/// Per-connection session state.
pub struct ConsumerState {
    /// Live records numbered below this were already delivered through
    /// history replay and are skipped silently.
    pub min_seqn: u64,
    /// Missed-record count accumulated but not yet announced.
    pub overrun: u64,
}

/// What the connection does after one handled event.
pub enum Verdict {
    /// Keep receiving.
    Continue,
    /// The stream ended: emit the closing output, then hang up.
    Finish,
    /// The disconnect-on-overruns policy fired: hang up at once, with no
    /// further output.
    Disconnect,
}

/// The outcome of handling one event.
pub struct Step {
    /// Bytes to write to the transport, possibly none.
    pub out: Vec<u8>,
    /// Whether to flush the transport after writing.
    pub flush: bool,
    pub verdict: Verdict,
}

/// The bytes history replay writes: one content line per replayed content
/// record, oldest first.
pub open spec fn replay_bytes(
    rs: Seq<RecordView>,
    show_ts: bool,
    show_seqn: bool,
    base: u64,
) -> Seq<u8>
    decreases rs.len(),
{
    if rs.len() == 0 {
        Seq::empty()
    } else {
        replay_bytes(rs.drop_last(), show_ts, show_seqn, base) + (if rs.last().payload
            is Content {
            content_line(
                show_ts,
                show_seqn,
                (rs.last().timestamp - base) as u64,
                rs.last().seqn,
                content_bytes(rs.last().payload),
            )
        } else {
            Seq::empty()
        })
    }
}

/// The sequence floor after replaying `rs`: one past the last replayed
/// content record, or 0 when nothing was replayed.
pub open spec fn replay_min_seqn(rs: Seq<RecordView>) -> u64
    decreases rs.len(),
{
    if rs.len() == 0 {
        0u64
    } else if rs.last().payload is Content {
        (rs.last().seqn + 1) as u64
    } else {
        replay_min_seqn(rs.drop_last())
    }
}

/// Opens a session: replays the history snapshot (when one is configured),
/// appends the HELLO line (when configured), and fixes the sequence floor
/// for the live stream.
pub fn begin_session(
    snapshot: &Option<Vec<Record>>,
    cfg: &Config,
    tsp: &TimestampPrinter,
    now: u64,
) -> (r: (Vec<u8>, ConsumerState))
    requires
        tsp.begin <= now,
        match snapshot {
            Some(v) => forall|i: int|
                0 <= i < v@.len() ==> tsp.begin <= (#[trigger] v@[i]).timestamp && v@[i].seqn
                    < u64::MAX,
            None => true,
        },
    ensures
        r.1.overrun == 0,
        r.1.min_seqn == (match snapshot {
            Some(v) => replay_min_seqn(recs_view(v@)),
            None => 0u64,
        }),
        r.0@ == (match snapshot {
            Some(v) => replay_bytes(
                recs_view(v@),
                cfg.timestamps,
                cfg.print_sequence_numbers,
                tsp.begin,
            ),
            None => Seq::<u8>::empty(),
        }) + (if cfg.hello_message {
            hello_line(cfg.timestamps, (now - tsp.begin) as u64, cfg.sep_spec())
        } else {
            Seq::<u8>::empty()
        }),
{
    let mut out: Vec<u8> = Vec::new();
    let mut min_seqn: u64 = 0;
    match snapshot {
        Some(v) => {
            let ghost rv = recs_view(v@);
            let mut i: usize = 0;
            while i < v.len()
                invariant
                    i <= v@.len(),
                    rv == recs_view(v@),
                    rv.len() == v@.len(),
                    tsp.begin <= now,
                    forall|t: int|
                        0 <= t < v@.len() ==> tsp.begin <= (#[trigger] v@[t]).timestamp
                            && v@[t].seqn < u64::MAX,
                    out@ == replay_bytes(
                        rv.subrange(0, i as int),
                        cfg.timestamps,
                        cfg.print_sequence_numbers,
                        tsp.begin,
                    ),
                    min_seqn == replay_min_seqn(rv.subrange(0, i as int)),
                decreases v@.len() - i,
            {
                proof {
                    assert(rv.subrange(0, i + 1 as int).drop_last() =~= rv.subrange(0, i as int));
                    assert(rv.subrange(0, i + 1 as int).last() == rv[i as int]);
                    assert(rv[i as int] == v@[i as int]@);
                }
                let rec = &v[i];
                match &rec.payload {
                    crate::record::Payload::Content(_) => {
                        emit_content_line(&mut out, tsp, cfg, rec);
                        min_seqn = rec.seqn + 1;
                    },
                    _ => {},
                }
                i = i + 1;
            }
            proof {
                assert(rv.subrange(0, rv.len() as int) =~= rv);
            }
        },
        None => {},
    }
    if cfg.hello_message {
        emit_hello_line(&mut out, tsp, cfg, now);
    }
    let st = ConsumerState { min_seqn, overrun: 0 };
    (out, st)
}

/// Handles one event from this connection's subscription and says what to
/// write, whether to flush (exactly when the subscription is drained, so
/// back-to-back records batch into one flush), and whether to keep going.
///
/// Skipped records — live records numbered below the session's floor,
/// already delivered through history — produce no output and no flush.
/// A lag event only accumulates the missed count (announced before the
/// next content line), except that with `disconnect_on_overruns` it tears
/// the connection down at once with nothing further delivered.
pub fn handle(
    state: &mut ConsumerState,
    event: &RecvOutcome,
    cfg: &Config,
    tsp: &TimestampPrinter,
    now: u64,
    drained: bool,
) -> (r: Step)
    requires
        tsp.begin <= now,
        event matches RecvOutcome::Msg(m) ==> tsp.begin <= m.timestamp,
    ensures
        ({
            let st0 = *old(state);
            let st1 = *final(state);
            match event {
                RecvOutcome::Msg(m) => {
                    if m.seqn < st0.min_seqn {
                        &&& r.out@ == Seq::<u8>::empty()
                        &&& r.flush == false
                        &&& r.verdict is Continue
                        &&& st1 == st0
                    } else {
                        match m.payload {
                            crate::record::Payload::Content(_) => {
                                &&& r.out@ == (if cfg.announce_overruns && st0.overrun > 0 {
                                    overrun_line(
                                        cfg.timestamps,
                                        (now - tsp.begin) as u64,
                                        st0.overrun,
                                        cfg.sep_spec(),
                                    )
                                } else {
                                    Seq::<u8>::empty()
                                }) + content_line(
                                    cfg.timestamps,
                                    cfg.print_sequence_numbers,
                                    (m.timestamp - tsp.begin) as u64,
                                    m.seqn,
                                    content_bytes(m@.payload),
                                )
                                &&& r.flush == drained
                                &&& r.verdict is Continue
                                &&& st1.min_seqn == st0.min_seqn
                                &&& st1.overrun == (if cfg.announce_overruns {
                                    0u64
                                } else {
                                    st0.overrun
                                })
                            },
                            crate::record::Payload::Eof => {
                                &&& r.out@ == Seq::<u8>::empty()
                                &&& r.flush == false
                                &&& r.verdict is Finish
                                &&& st1 == st0
                            },
                            crate::record::Payload::Backpressure => {
                                &&& r.out@ == (if cfg.announce_overruns {
                                    backpressure_line(
                                        cfg.timestamps,
                                        (m.timestamp - tsp.begin) as u64,
                                        cfg.sep_spec(),
                                    )
                                } else {
                                    Seq::<u8>::empty()
                                })
                                &&& r.flush == drained
                                &&& r.verdict is Continue
                                &&& st1 == st0
                            },
                        }
                    }
                },
                RecvOutcome::Lagged(n) => {
                    &&& r.out@ == Seq::<u8>::empty()
                    &&& r.flush == false
                    &&& r.verdict == (if cfg.disconnect_on_overruns {
                        Verdict::Disconnect
                    } else {
                        Verdict::Continue
                    })
                    &&& st1.min_seqn == st0.min_seqn
                    &&& st1.overrun == (if st0.overrun + *n <= u64::MAX {
                        st0.overrun + *n
                    } else {
                        u64::MAX as int
                    })
                },
                RecvOutcome::Empty => {
                    &&& r.out@ == Seq::<u8>::empty()
                    &&& r.flush == false
                    &&& r.verdict is Continue
                    &&& st1 == st0
                },
                RecvOutcome::Closed => {
                    &&& r.out@ == Seq::<u8>::empty()
                    &&& r.flush == false
                    &&& r.verdict is Finish
                    &&& st1 == st0
                },
            }
        }),
{
    match event {
        RecvOutcome::Msg(m) => {
            if m.seqn < state.min_seqn {
                Step { out: Vec::new(), flush: false, verdict: Verdict::Continue }
            } else {
                match &m.payload {
                    crate::record::Payload::Content(_) => {
                        let mut out: Vec<u8> = Vec::new();
                        if cfg.announce_overruns && state.overrun > 0 {
                            emit_overrun_line(&mut out, tsp, cfg, now, state.overrun);
                            state.overrun = 0;
                        }
                        emit_content_line(&mut out, tsp, cfg, m);
                        Step { out, flush: drained, verdict: Verdict::Continue }
                    },
                    crate::record::Payload::Eof => {
                        Step { out: Vec::new(), flush: false, verdict: Verdict::Finish }
                    },
                    crate::record::Payload::Backpressure => {
                        let mut out: Vec<u8> = Vec::new();
                        if cfg.announce_overruns {
                            emit_backpressure_line(&mut out, tsp, cfg, m.timestamp);
                        }
                        Step { out, flush: drained, verdict: Verdict::Continue }
                    },
                }
            }
        },
        RecvOutcome::Lagged(n) => {
            if *n <= u64::MAX - state.overrun {
                state.overrun = state.overrun + *n;
            } else {
                state.overrun = u64::MAX;
            }
            let verdict = if cfg.disconnect_on_overruns {
                Verdict::Disconnect
            } else {
                Verdict::Continue
            };
            Step { out: Vec::new(), flush: false, verdict }
        },
        RecvOutcome::Empty => {
            Step { out: Vec::new(), flush: false, verdict: Verdict::Continue }
        },
        RecvOutcome::Closed => {
            Step { out: Vec::new(), flush: false, verdict: Verdict::Finish }
        },
    }
}

/// The closing output after the stream ended normally: the EOF annotation
/// line when announcements are on, and a final flush exactly then.
pub fn finish_session(cfg: &Config, tsp: &TimestampPrinter, now: u64) -> (r: (Vec<u8>, bool))
    requires
        tsp.begin <= now,
    ensures
        r.0@ == (if cfg.announce_overruns {
            eof_line(cfg.timestamps, (now - tsp.begin) as u64, cfg.sep_spec())
        } else {
            Seq::<u8>::empty()
        }),
        r.1 == cfg.announce_overruns,
{
    let mut out: Vec<u8> = Vec::new();
    if cfg.announce_overruns {
        emit_eof_line(&mut out, tsp, cfg, now);
    }
    (out, cfg.announce_overruns)
}

/// On an all-content run of records with consecutive sequence numbers, the
/// sequence floor after replay is one past the last record (0 when empty).
pub proof fn lemma_replay_min_seqn_content(rs: Seq<RecordView>)
    requires
        forall|i: int| 0 <= i < rs.len() ==> (#[trigger] rs[i]).payload is Content,
        rs.len() > 0 ==> rs.last().seqn < u64::MAX,
    ensures
        replay_min_seqn(rs) == (if rs.len() == 0 {
            0int
        } else {
            rs.last().seqn + 1
        }),
{
}

/// Any client connecting after at least `h` content records were produced
/// (with history length `h` configured) snapshots exactly the last `h`
/// records, numbered consecutively up to the latest, and its sequence
/// floor after replay is exactly the count of records produced so far —
/// so live streaming continues one past the last replayed record.
pub proof fn lemma_late_joiner_snapshot(e: Engine)
    requires
        e.wf(),
        e.cfg.history_length is Some,
        e.content_log@.len() >= e.cfg.history_length->Some_0,
    ensures
        ({
            let h = e.cfg.history_length->Some_0 as int;
            let n = e.content_log@.len() as int;
            let snap = take_last(e.content_log@, e.cfg.history_length->Some_0 as nat);
            &&& snap.len() == h
            &&& forall|i: int| 0 <= i < h ==> (#[trigger] snap[i]).seqn == n - h + i
            &&& forall|i: int| 0 <= i < h ==> (#[trigger] snap[i]).payload is Content
            &&& (h > 0 ==> replay_min_seqn(snap) == n)
        }),
{
    let h = e.cfg.history_length->Some_0 as int;
    let n = e.content_log@.len() as int;
    let snap = take_last(e.content_log@, e.cfg.history_length->Some_0 as nat);
    assert forall|i: int| 0 <= i < h implies (#[trigger] snap[i]).seqn == n - h + i && snap[i].payload
        is Content by {
        assert(snap[i] == e.content_log@[n - h + i]);
    }
    if h > 0 {
        assert(snap.last() == e.content_log@[n - 1]);
    }
}

/// History replay followed by the floor-filtered live stream delivers each
/// record exactly once, in order, with no gap: writing the replayed run
/// and then every live record numbered at least `m` (the floor) yields
/// consecutive sequence numbers continuing seamlessly from the replay —
/// zero duplicates and zero gaps. The live records below the floor are
/// exactly the ones the replay already covered.
pub proof fn lemma_no_dup_no_gap(hist: Seq<RecordView>, live: Seq<RecordView>, m: u64)
    requires
        forall|i: int|
            0 <= i < hist.len() ==> (#[trigger] hist[i]).seqn == hist[0].seqn + i,
        m as int == (if hist.len() == 0 {
            0int
        } else {
            hist[0].seqn + hist.len()
        }),
        forall|i: int|
            0 <= i < live.len() ==> (#[trigger] live[i]).seqn == live[0].seqn + i,
        live.len() > 0 ==> live[0].seqn <= m,
    ensures
        forall|i: int| 0 <= i < live.len() ==> ((#[trigger] live[i]).seqn < m <==> i < m - live[0].seqn),
        ({
            let skip = if live.len() == 0 {
                0int
            } else {
                m - live[0].seqn
            };
            let tail = if live.len() == 0 || skip >= live.len() {
                Seq::<RecordView>::empty()
            } else {
                live.skip(skip)
            };
            forall|i: int|
                0 <= i < hist.len() + tail.len() ==> (hist + tail)[i].seqn == m - hist.len() + i
        }),
{
    let skip = if live.len() == 0 {
        0int
    } else {
        m - live[0].seqn
    };
    let tail = if live.len() == 0 || skip >= live.len() {
        Seq::<RecordView>::empty()
    } else {
        live.skip(skip)
    };
    assert forall|i: int| 0 <= i < hist.len() + tail.len() implies (hist + tail)[i].seqn == m
        - hist.len() + i by {
        if i < hist.len() {
            assert((hist + tail)[i] == hist[i]);
        } else {
            assert((hist + tail)[i] == live[skip + (i - hist.len())]);
        }
    }
}

} // verus!
