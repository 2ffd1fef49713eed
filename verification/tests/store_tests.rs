use sensor_logger::assembler::CompletedRecord;
use sensor_logger::clock::Timestamp;
use sensor_logger::store::{split_fields_bytes, split_rows_bytes, RecordStore};
use sensor_logger::value::ValueToken;

fn record(ts: Timestamp, t: &[u8], h: &[u8], p: &[u8]) -> CompletedRecord {
    CompletedRecord {
        timestamp: ts,
        temperature: ValueToken::new(t.to_vec()).unwrap(),
        humidity: ValueToken::new(h.to_vec()).unwrap(),
        pressure: ValueToken::new(p.to_vec()).unwrap(),
    }
}

fn ts(h: u8, m: u8, s: u8) -> Timestamp {
    Timestamp { year: 2026, month: 10, day: 11, hour: h, minute: m, second: s }
}

#[test]
fn a_fresh_store_holds_only_the_header() {
    let s = RecordStore::new();
    assert_eq!(s.content, b"Time;Temperature;Humidity;Pressure\n".to_vec());
    assert!(s.read_back().is_empty());
}

#[test]
fn writing_the_header_twice_is_idempotent() {
    let mut s = RecordStore::new();
    let r = record(ts(9, 0, 0), b"21.5", b"55.0", b"1013.2");
    s.append(&r);
    let h1 = s.write_header();
    let h2 = s.write_header();
    assert_eq!(h1, h2);
    assert_eq!(s.content, b"Time;Temperature;Humidity;Pressure\n".to_vec());
    assert!(s.read_back().is_empty());
}

#[test]
fn appended_rows_have_the_exact_text() {
    let mut s = RecordStore::new();
    let row = s.append(&record(ts(9, 5, 3), b"21.5", b"55.0", b"1013.2"));
    assert_eq!(row, b"2026-10-11 09:05:03;21.5;55.0;1013.2\n".to_vec());
    assert_eq!(
        s.content,
        b"Time;Temperature;Humidity;Pressure\n2026-10-11 09:05:03;21.5;55.0;1013.2\n".to_vec()
    );
}

#[test]
fn the_store_round_trips_in_order() {
    let mut s = RecordStore::new();
    let recs = [
        (ts(9, 0, 1), &b"21.5"[..], &b"55.0"[..], &b"1013.2"[..]),
        (ts(9, 0, 4), b"22.0", b"54.8", b"1013.0"),
        (ts(9, 0, 7), b"0.0", b"-1.5", b"999.9"),
    ];
    for (t, a, b, c) in recs {
        s.append(&record(t, a, b, c));
    }
    let rows = s.read_back();
    assert_eq!(rows.len(), 3);
    for (i, (t, a, b, c)) in recs.into_iter().enumerate() {
        assert_eq!(rows[i].len(), 4);
        assert_eq!(rows[i][0], sensor_logger::clock::format_timestamp(&t));
        assert_eq!(rows[i][1], a.to_vec());
        assert_eq!(rows[i][2], b.to_vec());
        assert_eq!(rows[i][3], c.to_vec());
    }
    // Timestamps written in non-decreasing order come back in that order.
    assert!(rows[0][0] <= rows[1][0] && rows[1][0] <= rows[2][0]);
}

#[test]
fn splitting_matches_the_format() {
    let line: Vec<u8> = b"a;bb;;c".to_vec();
    let fields = split_fields_bytes(&line);
    assert_eq!(
        fields,
        vec![b"a".to_vec(), b"bb".to_vec(), b"".to_vec(), b"c".to_vec()]
    );
    let text: Vec<u8> = b"x;y\nz\n".to_vec();
    let rows = split_rows_bytes(&text);
    assert_eq!(rows.len(), 2);
    assert_eq!(rows[0], vec![b"x".to_vec(), b"y".to_vec()]);
    assert_eq!(rows[1], vec![b"z".to_vec()]);
    // A final unterminated line still counts.
    let tail: Vec<u8> = b"x\ny".to_vec();
    assert_eq!(split_rows_bytes(&tail).len(), 2);
}
