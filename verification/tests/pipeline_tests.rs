use sensor_logger::clock::{clamp_clock, format_timestamp, now_timestamp, Timestamp};
use sensor_logger::pipeline::{Fault, Pipeline, ReadEvent};
use sensor_logger::protocol::ReadingKind;
use sensor_logger::value::ValueToken;

fn chunk(p: &mut Pipeline, line: &[u8]) -> sensor_logger::pipeline::Outcome {
    let buf: Vec<u8> = line.to_vec();
    let n = buf.len();
    p.handle_chunk(&buf, n)
}

#[test]
fn full_cycle_emits_one_record() {
    let mut p = Pipeline::new();
    let r1 = chunk(&mut p, b"T 21.5");
    assert!(r1.emitted.is_none());
    assert!(r1.diagnostic.is_none());
    let r2 = chunk(&mut p, b"H 55.0");
    assert!(r2.emitted.is_none());
    assert!(r2.diagnostic.is_none());
    let r3 = chunk(&mut p, b"P 1013.2");
    assert!(r3.diagnostic.is_none());
    let rec = r3.emitted.expect("a full cycle must close a record");
    assert_eq!(rec.temperature.bytes, b"21.5".to_vec());
    assert_eq!(rec.humidity.bytes, b"55.0".to_vec());
    assert_eq!(rec.pressure.bytes, b"1013.2".to_vec());
    assert!(p.assembler.temperature.is_none());
    assert!(p.assembler.humidity.is_none());
    assert!(p.assembler.pressure.is_none());
    assert_eq!(p.assembler.last_kind, Some(ReadingKind::Pressure));
}

#[test]
fn humidity_first_is_dropped() {
    let mut p = Pipeline::new();
    let r = chunk(&mut p, b"H 55.0");
    assert!(r.emitted.is_none());
    assert!(r.diagnostic.is_none());
    assert!(p.assembler.humidity.is_none());
    assert_eq!(p.assembler.last_kind, Some(ReadingKind::Humidity));
}

#[test]
fn out_of_order_never_overwrites() {
    let mut p = Pipeline::new();
    assert!(chunk(&mut p, b"T 1.0").emitted.is_none());
    // A second Temperature is out of order: the field keeps its value.
    assert!(chunk(&mut p, b"T 9.9").emitted.is_none());
    assert_eq!(p.assembler.temperature.as_ref().unwrap().bytes, b"1.0".to_vec());
    assert!(chunk(&mut p, b"H 2.0").emitted.is_none());
    let r = chunk(&mut p, b"P 3.0");
    let rec = r.emitted.expect("the cycle still closes");
    assert_eq!(rec.temperature.bytes, b"1.0".to_vec());
    assert_eq!(rec.humidity.bytes, b"2.0".to_vec());
    assert_eq!(rec.pressure.bytes, b"3.0".to_vec());
}

#[test]
fn incomplete_close_emits_nothing_and_reopens() {
    let mut p = Pipeline::new();
    // H is rejected at the start, but P then follows an H and is accepted:
    // the close finds no temperature and must not emit.
    assert!(chunk(&mut p, b"H 55.0").emitted.is_none());
    let r = chunk(&mut p, b"P 9.9");
    assert!(r.emitted.is_none());
    assert!(r.diagnostic.is_none());
    assert_eq!(p.assembler.last_kind, Some(ReadingKind::Pressure));
    // The closed cycle lets the next Temperature open a fresh one.
    assert!(chunk(&mut p, b"T 1.0").emitted.is_none());
    assert!(chunk(&mut p, b"H 2.0").emitted.is_none());
    let r2 = chunk(&mut p, b"P 3.0");
    let rec = r2.emitted.expect("the fresh cycle closes");
    assert_eq!(rec.temperature.bytes, b"1.0".to_vec());
    assert_eq!(rec.humidity.bytes, b"2.0".to_vec());
    assert_eq!(rec.pressure.bytes, b"3.0".to_vec());
}

#[test]
fn every_pressure_reading_runs_the_close_check() {
    let mut p = Pipeline::new();
    // An early accepted Pressure leaves a pending pressure behind.
    assert!(chunk(&mut p, b"H 0.1").emitted.is_none());
    assert!(chunk(&mut p, b"P 7.5").emitted.is_none());
    assert!(chunk(&mut p, b"T 1.0").emitted.is_none());
    assert!(chunk(&mut p, b"H 2.0").emitted.is_none());
    // All three fields are pending; a stray Temperature only moves the
    // tracking state.
    assert!(chunk(&mut p, b"T 8.8").emitted.is_none());
    // The next Pressure is out of order, so its value is dropped — but the
    // close check runs on every Pressure, and the pending cycle closes with
    // the earlier pressure value.
    let r = chunk(&mut p, b"P 9.9");
    let rec = r.emitted.expect("the pending cycle closes");
    assert_eq!(rec.temperature.bytes, b"1.0".to_vec());
    assert_eq!(rec.humidity.bytes, b"2.0".to_vec());
    assert_eq!(rec.pressure.bytes, b"7.5".to_vec());
}

#[test]
fn malformed_number_is_a_recoverable_skip() {
    let mut p = Pipeline::new();
    let r = chunk(&mut p, b"T abc");
    assert!(r.emitted.is_none());
    assert_eq!(r.diagnostic, Some(Fault::Parse));
    // The skipped reading leaves the assembler untouched.
    assert!(p.assembler.temperature.is_none());
    assert_eq!(p.assembler.last_kind, None);
    // The loop goes on: a full cycle afterwards still works.
    assert!(chunk(&mut p, b"T 1.0").emitted.is_none());
    assert!(chunk(&mut p, b"H 2.0").emitted.is_none());
    assert!(chunk(&mut p, b"P 3.0").emitted.is_some());
}

#[test]
fn missing_value_is_a_parse_fault() {
    let mut p = Pipeline::new();
    let r = chunk(&mut p, b"T");
    assert_eq!(r.diagnostic, Some(Fault::Parse));
    assert!(r.emitted.is_none());
}

#[test]
fn non_text_chunk_is_a_decode_fault() {
    let mut p = Pipeline::new();
    let r = chunk(&mut p, &[0xffu8, 0x20, 0x31]);
    assert_eq!(r.diagnostic, Some(Fault::Decode));
    assert!(r.emitted.is_none());
    assert_eq!(p.assembler.last_kind, None);
}

#[test]
fn untagged_lines_are_ignored() {
    let mut p = Pipeline::new();
    assert!(chunk(&mut p, b"X 1.0").diagnostic.is_none());
    assert!(chunk(&mut p, b"").diagnostic.is_none());
    assert!(chunk(&mut p, b"   ").diagnostic.is_none());
    assert_eq!(p.assembler.last_kind, None);
}

#[test]
fn chunk_length_limits_the_line() {
    let mut p = Pipeline::new();
    // Only the first 5 bytes were received; the rest of the buffer is stale.
    let buf: Vec<u8> = b"T 1.0XXXXXX".to_vec();
    let r = p.handle_chunk(&buf, 5);
    assert!(r.diagnostic.is_none());
    assert_eq!(p.assembler.temperature.as_ref().unwrap().bytes, b"1.0".to_vec());
}

#[test]
fn surrounding_whitespace_is_trimmed() {
    let mut p = Pipeline::new();
    let r = chunk(&mut p, b"  T 21.5\r\n");
    assert!(r.diagnostic.is_none());
    assert_eq!(p.assembler.temperature.as_ref().unwrap().bytes, b"21.5".to_vec());
}

#[test]
fn doubled_delimiter_is_a_parse_fault() {
    let mut p = Pipeline::new();
    let r = chunk(&mut p, b"T  21.5");
    assert_eq!(r.diagnostic, Some(Fault::Parse));
}

#[test]
fn transport_events_are_handled_quietly() {
    let mut p = Pipeline::new();
    let r1 = p.handle_event(ReadEvent::WaitExpired);
    assert!(r1.emitted.is_none());
    assert!(r1.diagnostic.is_none());
    let r2 = p.handle_event(ReadEvent::TransportFault);
    assert!(r2.emitted.is_none());
    assert_eq!(r2.diagnostic, Some(Fault::Transport));
    let r3 = p.handle_event(ReadEvent::Data { chunk: b"T 4.5".to_vec(), len: 5 });
    assert!(r3.diagnostic.is_none());
    assert_eq!(p.assembler.temperature.as_ref().unwrap().bytes, b"4.5".to_vec());
}

#[test]
fn value_tokens_follow_the_decimal_grammar() {
    let ok = [
        &b"21.5"[..],
        b"0.0",
        b"-3",
        b"+4.25",
        b"1.",
        b".5",
        b"1e3",
        b"1.2e-3",
        b"+1E+10",
    ];
    for t in ok {
        assert!(ValueToken::new(t.to_vec()).is_some(), "{:?}", t);
    }
    let bad = [&b"abc"[..], b"", b".", b"-", b"1e", b"--1", b"1.2.3", b"1 2", b"e5", b"2O"];
    for t in bad {
        assert!(ValueToken::new(t.to_vec()).is_none(), "{:?}", t);
    }
}

#[test]
fn timestamp_renders_zero_padded() {
    let ts = Timestamp { year: 2026, month: 10, day: 11, hour: 9, minute: 5, second: 3 };
    assert_eq!(format_timestamp(&ts), b"2026-10-11 09:05:03".to_vec());
    let ts2 = Timestamp { year: 7, month: 1, day: 31, hour: 23, minute: 59, second: 0 };
    assert_eq!(format_timestamp(&ts2), b"0007-01-31 23:59:00".to_vec());
}

#[test]
fn clock_components_are_clamped_into_range() {
    let t = clamp_clock(2026, 10, 11, 9, 5, 3);
    assert_eq!(t, Timestamp { year: 2026, month: 10, day: 11, hour: 9, minute: 5, second: 3 });
    let c = clamp_clock(-5, 0, 40, 99, 77, 88);
    assert_eq!(c.year, 0);
    assert_eq!(c.month, 1);
    assert_eq!(c.day, 31);
    assert_eq!(c.hour, 23);
    assert_eq!(c.minute, 59);
    assert_eq!(c.second, 59);
    let big = clamp_clock(123456, 13, 0, 0, 0, 0);
    assert_eq!(big.year, 9999);
    assert_eq!(big.month, 12);
    assert_eq!(big.day, 1);
}

#[test]
fn the_clock_reads_in_range() {
    let ts = now_timestamp();
    assert!((1..=12).contains(&ts.month));
    assert!((1..=31).contains(&ts.day));
    assert!(ts.hour <= 23);
    assert!(ts.minute <= 59);
    assert!(ts.second <= 59);
}
