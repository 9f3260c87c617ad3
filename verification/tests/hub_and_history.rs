use linecast::config::{Config, ConfigError};
use linecast::history::HistoryRing;
use linecast::hub::{Hub, RecvOutcome};
use linecast::record::{Payload, Record};
use linecast::shutdown::ShutdownPatience;

fn rec(seqn: u64, text: &[u8]) -> Record {
    Record { timestamp: 0, seqn, payload: Payload::Content(text.to_vec()) }
}

fn msg_text(r: RecvOutcome) -> Vec<u8> {
    match r {
        RecvOutcome::Msg(m) => match m.payload {
            Payload::Content(b) => b,
            _ => panic!("expected content"),
        },
        _ => panic!("expected a message"),
    }
}

#[test]
fn config_rejects_backpressure_without_capacity() {
    let mut cfg = Config {
        queue_length: 1,
        backpressure: true,
        announce_overruns: false,
        disconnect_on_overruns: false,
        timestamps: false,
        hello_message: false,
        max_frame_size: 65536,
        zero_separated: false,
        tee: false,
        print_sequence_numbers: false,
        history_length: None,
        require_observer: false,
    };
    assert_eq!(cfg.check(), Err(ConfigError::BackpressureNeedsCapacity));
    cfg.backpressure = false;
    cfg.queue_length = 0;
    assert_eq!(cfg.check(), Err(ConfigError::ZeroQueueLength));
    cfg.queue_length = 1;
    assert_eq!(cfg.check(), Ok(()));
    assert_eq!(cfg.separator(), b'\n');
    cfg.zero_separated = true;
    assert_eq!(cfg.separator(), 0u8);
}

#[test]
fn lag_count_is_exactly_what_was_missed() {
    let mut hub = Hub::new(2);
    let id = hub.subscribe();
    for s in 0..5u64 {
        hub.publish(rec(s, format!("{s}\n").as_bytes()));
    }
    // The window holds records 3 and 4; this subscription missed 0, 1, 2.
    match hub.recv(id) {
        RecvOutcome::Lagged(n) => assert_eq!(n, 3),
        _ => panic!("expected a lag event"),
    }
    assert_eq!(msg_text(hub.recv(id)), b"3\n".to_vec());
    assert_eq!(msg_text(hub.recv(id)), b"4\n".to_vec());
    assert!(matches!(hub.recv(id), RecvOutcome::Empty));
}

#[test]
fn subscription_starts_after_existing_records() {
    let mut hub = Hub::new(4);
    hub.publish(rec(0, b"early\n"));
    let id = hub.subscribe();
    assert!(matches!(hub.recv(id), RecvOutcome::Empty));
    hub.publish(rec(1, b"late\n"));
    assert_eq!(msg_text(hub.recv(id)), b"late\n".to_vec());
}

#[test]
fn closed_hub_reports_closed_after_drain() {
    let mut hub = Hub::new(4);
    let id = hub.subscribe();
    hub.publish(rec(0, b"a\n"));
    hub.close();
    assert_eq!(msg_text(hub.recv(id)), b"a\n".to_vec());
    assert!(matches!(hub.recv(id), RecvOutcome::Closed));
}

#[test]
fn receiver_count_tracks_subscriptions() {
    let mut hub = Hub::new(4);
    assert_eq!(hub.receiver_count(), 0);
    let a = hub.subscribe();
    let b = hub.subscribe();
    assert_eq!(hub.receiver_count(), 2);
    hub.unsubscribe(a);
    assert_eq!(hub.receiver_count(), 1);
    hub.unsubscribe(b);
    assert_eq!(hub.receiver_count(), 0);
}

#[test]
fn queued_len_follows_the_slowest_reader() {
    let mut hub = Hub::new(4);
    assert_eq!(hub.queued_len(), 0);
    let id = hub.subscribe();
    hub.publish(rec(0, b"a\n"));
    hub.publish(rec(1, b"b\n"));
    hub.publish(rec(2, b"c\n"));
    assert_eq!(hub.queued_len(), 3);
    let _ = hub.recv(id);
    assert_eq!(hub.queued_len(), 2);
    let _ = hub.recv(id);
    let _ = hub.recv(id);
    assert_eq!(hub.queued_len(), 0);
}

#[test]
fn history_evicts_oldest_first() {
    let mut ring = HistoryRing::new(2);
    ring.push(rec(0, b"0\n"));
    ring.push(rec(1, b"1\n"));
    ring.push(rec(2, b"2\n"));
    let snap = ring.snapshot();
    assert_eq!(snap.len(), 2);
    assert_eq!(snap[0].seqn, 1);
    assert_eq!(snap[1].seqn, 2);
}

#[test]
fn history_capacity_zero_retains_nothing() {
    let mut ring = HistoryRing::new(0);
    ring.push(rec(0, b"0\n"));
    ring.push(rec(1, b"1\n"));
    assert!(ring.snapshot().is_empty());
}

#[test]
fn snapshot_is_a_deep_copy() {
    let mut ring = HistoryRing::new(3);
    ring.push(rec(0, b"keep\n"));
    let snap = ring.snapshot();
    ring.push(rec(1, b"later\n"));
    assert_eq!(snap.len(), 1);
    match &snap[0].payload {
        Payload::Content(b) => assert_eq!(b, &b"keep\n".to_vec()),
        _ => panic!("expected content"),
    }
}

#[test]
fn shutdown_patience_runs_out() {
    let mut p = ShutdownPatience::new(3);
    assert!(!p.tick());
    assert!(!p.tick());
    assert!(p.tick());
    assert_eq!(p.points, 0);
}
