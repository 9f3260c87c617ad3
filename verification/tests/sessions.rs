use linecast::config::Config;
use linecast::consumer::{begin_session, finish_session, handle, ConsumerState, Verdict};
use linecast::engine::{next_backoff, Engine, Offer};
use linecast::framer::Framer;
use linecast::hub::RecvOutcome;
use linecast::record::{Payload, Record};
use linecast::render::TimestampPrinter;

fn base_config() -> Config {
    Config {
        queue_length: 16,
        backpressure: false,
        announce_overruns: false,
        disconnect_on_overruns: false,
        timestamps: false,
        hello_message: false,
        max_frame_size: 65536,
        zero_separated: false,
        tee: false,
        print_sequence_numbers: false,
        history_length: None,
        require_observer: false,
    }
}

fn rec(seqn: u64, text: &[u8]) -> Record {
    Record { timestamp: 0, seqn, payload: Payload::Content(text.to_vec()) }
}

/// Runs one connected client until the stream finishes; returns everything
/// it would have written.
fn drain_client(engine: &mut Engine, id: usize, st: &mut ConsumerState, cfg: &Config) -> Vec<u8> {
    let tsp = TimestampPrinter::new(0);
    let mut written = Vec::new();
    loop {
        let ev = engine.recv_for(id);
        if matches!(ev, RecvOutcome::Empty) {
            panic!("the producer finished, so the stream must end");
        }
        let drained = engine.is_drained_for(id);
        let step = handle(st, &ev, cfg, &tsp, 0, drained);
        written.extend_from_slice(&step.out);
        match step.verdict {
            Verdict::Continue => {},
            Verdict::Finish => {
                let (tail, _flush) = finish_session(cfg, &tsp, 0);
                written.extend_from_slice(&tail);
                break;
            },
            Verdict::Disconnect => break,
        }
    }
    written
}

#[test]
fn three_lines_then_silent_close() {
    // qlen 16, no backpressure, no history, one client from the start:
    // it receives a\n b\n c\n in order and nothing else.
    let cfg = base_config();
    assert!(cfg.check().is_ok());
    let mut engine = Engine::new(cfg);
    let (id, snap) = engine.attach();
    assert!(snap.is_none());
    let tsp = TimestampPrinter::new(0);
    let (hello_out, mut st) = begin_session(&snap, &cfg, &tsp, 0);
    assert!(hello_out.is_empty());

    let mut framer = Framer::new(cfg.separator(), cfg.max_frame_size);
    for r in framer.feed(&b"a\nb\nc\n".to_vec(), 0) {
        assert!(matches!(engine.offer(r), Offer::Sent));
    }
    engine.finish(0);

    let written = drain_client(&mut engine, id, &mut st, &cfg);
    assert_eq!(written, b"a\nb\nc\n".to_vec());
}

#[test]
fn three_lines_with_eof_marker_when_announcing() {
    let mut cfg = base_config();
    cfg.announce_overruns = true;
    let mut engine = Engine::new(cfg);
    let (id, snap) = engine.attach();
    let tsp = TimestampPrinter::new(0);
    let (_, mut st) = begin_session(&snap, &cfg, &tsp, 0);

    let mut framer = Framer::new(cfg.separator(), cfg.max_frame_size);
    for r in framer.feed(&b"a\nb\nc\n".to_vec(), 0) {
        engine.offer(r);
    }
    engine.finish(0);

    let written = drain_client(&mut engine, id, &mut st, &cfg);
    assert_eq!(written, b"a\nb\nc\nEOF\n".to_vec());
}

#[test]
fn late_joiner_gets_last_two_then_live() {
    // history=2, five lines already produced: the client replays lines 4
    // and 5 (sequence numbers 3 and 4), then continues from line 6 with no
    // duplicate.
    let mut cfg = base_config();
    cfg.history_length = Some(2);
    let mut engine = Engine::new(cfg);
    let mut framer = Framer::new(cfg.separator(), cfg.max_frame_size);
    for r in framer.feed(&b"1\n2\n3\n4\n5\n".to_vec(), 0) {
        engine.offer(r);
    }

    let (id, snap) = engine.attach();
    let snap_inner = snap.as_ref().expect("history is configured");
    assert_eq!(snap_inner.len(), 2);
    assert_eq!(snap_inner[0].seqn, 3);
    assert_eq!(snap_inner[1].seqn, 4);
    let tsp = TimestampPrinter::new(0);
    let (replayed, mut st) = begin_session(&snap, &cfg, &tsp, 0);
    assert_eq!(replayed, b"4\n5\n".to_vec());
    assert_eq!(st.min_seqn, 5);

    for r in framer.feed(&b"6\n".to_vec(), 0) {
        engine.offer(r);
    }
    engine.finish(0);
    let live = drain_client(&mut engine, id, &mut st, &cfg);
    assert_eq!(live, b"6\n".to_vec());
}

#[test]
fn history_race_duplicates_are_skipped() {
    // Records that arrive on the live stream but were already replayed
    // (sequence number below the session floor) produce no output.
    let cfg = base_config();
    let tsp = TimestampPrinter::new(0);
    let mut st = ConsumerState { min_seqn: 5, overrun: 0 };
    let dup = RecvOutcome::Msg(rec(3, b"dup\n"));
    let step = handle(&mut st, &dup, &cfg, &tsp, 0, true);
    assert!(step.out.is_empty());
    assert!(!step.flush);
    assert!(matches!(step.verdict, Verdict::Continue));
    let fresh = RecvOutcome::Msg(rec(5, b"new\n"));
    let step = handle(&mut st, &fresh, &cfg, &tsp, 0, true);
    assert_eq!(step.out, b"new\n".to_vec());
    assert!(step.flush);
}

#[test]
fn overrun_announced_before_next_content() {
    let mut cfg = base_config();
    cfg.announce_overruns = true;
    let tsp = TimestampPrinter::new(0);
    let mut st = ConsumerState { min_seqn: 0, overrun: 0 };
    let step = handle(&mut st, &RecvOutcome::Lagged(3), &cfg, &tsp, 0, true);
    assert!(step.out.is_empty());
    assert_eq!(st.overrun, 3);
    let step = handle(&mut st, &RecvOutcome::Msg(rec(7, b"x\n")), &cfg, &tsp, 0, true);
    assert_eq!(step.out, b"OVERRUN 3\nx\n".to_vec());
    assert_eq!(st.overrun, 0);
}

#[test]
fn disconnect_on_first_lag_event() {
    let mut cfg = base_config();
    cfg.disconnect_on_overruns = true;
    let tsp = TimestampPrinter::new(0);
    let mut st = ConsumerState { min_seqn: 0, overrun: 0 };
    let step = handle(&mut st, &RecvOutcome::Lagged(9), &cfg, &tsp, 0, false);
    assert!(step.out.is_empty());
    assert!(matches!(step.verdict, Verdict::Disconnect));
}

#[test]
fn backpressure_marker_precedes_resumed_content() {
    // capacity 2, backpressure on: the second record is parked behind a
    // BACKPRESSURE marker and only goes out once the subscriber catches up.
    let mut cfg = base_config();
    cfg.queue_length = 2;
    cfg.backpressure = true;
    cfg.announce_overruns = true;
    assert!(cfg.check().is_ok());
    let mut engine = Engine::new(cfg);
    let (id, _snap) = engine.attach();

    assert!(matches!(engine.offer(rec(0, b"a\n")), Offer::Sent));
    assert!(matches!(engine.offer(rec(1, b"b\n")), Offer::MustWait));
    // The producer is blocked; polling does not publish yet.
    assert!(!engine.poll_pending());

    // The subscriber reads the first record, then sees the marker.
    assert!(matches!(engine.recv_for(id), RecvOutcome::Msg(Record { payload: Payload::Content(_), .. })));
    assert!(matches!(engine.recv_for(id), RecvOutcome::Msg(Record { payload: Payload::Backpressure, .. })));

    // Occupancy dropped below capacity - 1: the parked record goes out.
    assert!(engine.poll_pending());
    match engine.recv_for(id) {
        RecvOutcome::Msg(Record { payload: Payload::Content(b), seqn, .. }) => {
            assert_eq!(b, b"b\n".to_vec());
            assert_eq!(seqn, 1);
        },
        _ => panic!("expected the parked record"),
    }
}

#[test]
fn overrun_count_through_the_full_pipeline() {
    // Drop policy with a window of 2: a client that never read while five
    // lines went out misses exactly the four no longer retained, and the
    // announcement carries that exact count.
    let mut cfg = base_config();
    cfg.queue_length = 2;
    cfg.announce_overruns = true;
    let mut engine = Engine::new(cfg);
    let (id, snap) = engine.attach();
    let tsp = TimestampPrinter::new(0);
    let (_, mut st) = begin_session(&snap, &cfg, &tsp, 0);
    let mut framer = Framer::new(cfg.separator(), cfg.max_frame_size);
    for r in framer.feed(&b"0\n1\n2\n3\n4\n".to_vec(), 0) {
        engine.offer(r);
    }
    engine.finish(0);
    let written = drain_client(&mut engine, id, &mut st, &cfg);
    assert_eq!(written, b"OVERRUN 4\n4\nEOF\n".to_vec());
}

#[test]
fn zero_separated_annotation_lines() {
    let mut cfg = base_config();
    cfg.zero_separated = true;
    cfg.announce_overruns = true;
    let tsp = TimestampPrinter::new(0);
    let (tail, flush) = finish_session(&cfg, &tsp, 0);
    assert_eq!(tail, b"EOF\0".to_vec());
    assert!(flush);
    let mut st = ConsumerState { min_seqn: 0, overrun: 0 };
    let msg = RecvOutcome::Msg(Record {
        timestamp: 0,
        seqn: 0,
        payload: Payload::Content(b"one\0".to_vec()),
    });
    let step = handle(&mut st, &msg, &cfg, &tsp, 0, true);
    assert_eq!(step.out, b"one\0".to_vec());
}

#[test]
fn backoff_doubles_to_its_ceiling() {
    let mut w = 1u64;
    let mut seen = Vec::new();
    for _ in 0..20 {
        seen.push(w);
        w = next_backoff(w);
    }
    assert_eq!(seen[0], 1);
    assert_eq!(seen[1], 2);
    assert_eq!(seen[16], 65536);
    assert_eq!(seen[17], 65536);
}

#[test]
fn require_observer_blocks_reads_until_someone_connects() {
    let mut cfg = base_config();
    cfg.require_observer = true;
    let mut engine = Engine::new(cfg);
    assert!(!engine.should_read());
    let (id, _snap) = engine.attach();
    assert!(engine.should_read());
    engine.detach(id);
    assert!(!engine.should_read());
}

#[test]
fn hello_line_after_replay() {
    let mut cfg = base_config();
    cfg.hello_message = true;
    cfg.history_length = Some(4);
    let mut engine = Engine::new(cfg);
    engine.offer(rec(0, b"old\n"));
    let (_id, snap) = engine.attach();
    let tsp = TimestampPrinter::new(0);
    let (out, st) = begin_session(&snap, &cfg, &tsp, 0);
    assert_eq!(out, b"old\nHELLO\n".to_vec());
    assert_eq!(st.min_seqn, 1);
}

#[test]
fn timestamped_session_output() {
    let mut cfg = base_config();
    cfg.timestamps = true;
    cfg.print_sequence_numbers = true;
    cfg.announce_overruns = true;
    let tsp = TimestampPrinter::new(0);
    let mut st = ConsumerState { min_seqn: 0, overrun: 0 };
    let msg = RecvOutcome::Msg(Record {
        timestamp: 2000001,
        seqn: 4,
        payload: Payload::Content(b"hi\n".to_vec()),
    });
    let step = handle(&mut st, &msg, &cfg, &tsp, 5000000, true);
    assert_eq!(step.out, b"000002.000001\t4\thi\n".to_vec());
    let (tail, flush) = finish_session(&cfg, &tsp, 5000000);
    assert_eq!(tail, b"000005.000000 EOF\n".to_vec());
    assert!(flush);
}
