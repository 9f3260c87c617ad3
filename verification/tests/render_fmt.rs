use linecast::config::Config;
use linecast::record::{Payload, Record};
use linecast::render::{emit_content_line, u64_to_dec, u64_to_dec_pad6, TimestampPrinter};

fn plain_config() -> Config {
    Config {
        queue_length: 16,
        backpressure: false,
        announce_overruns: false,
        disconnect_on_overruns: false,
        timestamps: false,
        hello_message: false,
        max_frame_size: 65536,
        zero_separated: false,
        tee: false,
        print_sequence_numbers: false,
        history_length: None,
        require_observer: false,
    }
}

#[test]
fn decimal_digits_exact() {
    assert_eq!(u64_to_dec(0), b"0".to_vec());
    assert_eq!(u64_to_dec(9), b"9".to_vec());
    assert_eq!(u64_to_dec(10), b"10".to_vec());
    assert_eq!(u64_to_dec(1234567), b"1234567".to_vec());
    assert_eq!(u64_to_dec(u64::MAX), b"18446744073709551615".to_vec());
}

#[test]
fn padded_decimal_exact() {
    assert_eq!(u64_to_dec_pad6(7), b"000007".to_vec());
    assert_eq!(u64_to_dec_pad6(0), b"000000".to_vec());
    assert_eq!(u64_to_dec_pad6(999999), b"999999".to_vec());
    assert_eq!(u64_to_dec_pad6(1000000), b"1000000".to_vec());
}

#[test]
fn timestamp_format_exact() {
    let tsp = TimestampPrinter::new(0);
    let mut out = Vec::new();
    tsp.emit(&mut out, 1000002, b'\t');
    assert_eq!(out, b"000001.000002\t".to_vec());
}

#[test]
fn timestamp_relative_to_begin() {
    let tsp = TimestampPrinter::new(500);
    let mut out = Vec::new();
    tsp.emit(&mut out, 1234567 * 1000000 + 42 + 500, b' ');
    assert_eq!(out, b"1234567.000042 ".to_vec());
}

#[test]
fn content_line_with_all_prefixes() {
    let mut cfg = plain_config();
    cfg.timestamps = true;
    cfg.print_sequence_numbers = true;
    let tsp = TimestampPrinter::new(0);
    let rec = Record { timestamp: 3000004, seqn: 12, payload: Payload::Content(b"hi\n".to_vec()) };
    let mut out = Vec::new();
    emit_content_line(&mut out, &tsp, &cfg, &rec);
    assert_eq!(out, b"000003.000004\t12\thi\n".to_vec());
}

#[test]
fn content_line_bare() {
    let cfg = plain_config();
    let tsp = TimestampPrinter::new(0);
    let rec = Record { timestamp: 0, seqn: 5, payload: Payload::Content(b"x\n".to_vec()) };
    let mut out = Vec::new();
    emit_content_line(&mut out, &tsp, &cfg, &rec);
    assert_eq!(out, b"x\n".to_vec());
}
