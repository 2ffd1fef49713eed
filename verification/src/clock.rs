//! Wall-clock timestamps as plain calendar fields, with the verified
//! `YYYY-MM-DD HH:MM:SS` rendering the record store uses. Only reading the
//! clock itself is delegated to an outside crate.
use vstd::prelude::*;

verus! {

/// A calendar timestamp held as plain fields.
#[derive(Clone, Copy, PartialEq, Eq, Structural, Debug)]
pub struct Timestamp {
    pub year: u16,
    pub month: u8,
    pub day: u8,
    pub hour: u8,
    pub minute: u8,
    pub second: u8,
}

impl Timestamp {
    /// Fields fit the fixed-width rendering and the calendar's ranges.
    pub open spec fn wf(&self) -> bool {
        self.year <= 9999 && 1 <= self.month <= 12 && 1 <= self.day <= 31 && self.hour <= 23
            && self.minute <= 59 && self.second <= 59
    }
}

/// The ASCII digit for `d`.
pub open spec fn digit_byte(d: int) -> u8 {
    (48 + d) as u8
}

/// The 19 bytes of `YYYY-MM-DD HH:MM:SS` for `ts`.
pub open spec fn ts_bytes(ts: Timestamp) -> Seq<u8> {
    let y = ts.year as int;
    let mo = ts.month as int;
    let d = ts.day as int;
    let h = ts.hour as int;
    let mi = ts.minute as int;
    let s = ts.second as int;
    seq![
        digit_byte(y / 1000),
        digit_byte((y / 100) % 10),
        digit_byte((y / 10) % 10),
        digit_byte(y % 10),
        45u8,
        digit_byte(mo / 10),
        digit_byte(mo % 10),
        45u8,
        digit_byte(d / 10),
        digit_byte(d % 10),
        32u8,
        digit_byte(h / 10),
        digit_byte(h % 10),
        58u8,
        digit_byte(mi / 10),
        digit_byte(mi % 10),
        58u8,
        digit_byte(s / 10),
        digit_byte(s % 10),
    ]
}

/// A byte the rendering may hold: digit, dash, space or colon.
pub open spec fn ts_byte(b: u8) -> bool {
    crate::scan::is_digit(b) || b == 45 || b == 32 || b == 58
}

/// Every byte of a rendered timestamp is a digit, dash, space or colon.
pub proof fn lemma_ts_bytes(ts: Timestamp)
    requires
        ts.wf(),
    ensures
        ts_bytes(ts).len() == 19,
        forall|i: int| 0 <= i < ts_bytes(ts).len() ==> ts_byte(ts_bytes(ts)[i]),
{
    let b = ts_bytes(ts);
    assert(ts.year as int / 1000 <= 9);
    assert forall|i: int| 0 <= i < b.len() implies ts_byte(b[i]) by {
        if i == 0 {
        } else if i == 1 {
        } else if i == 2 {
        } else if i == 3 {
        } else if i == 4 {
        } else if i == 5 {
        } else if i == 6 {
        } else if i == 7 {
        } else if i == 8 {
        } else if i == 9 {
        } else if i == 10 {
        } else if i == 11 {
        } else if i == 12 {
        } else if i == 13 {
        } else if i == 14 {
        } else if i == 15 {
        } else if i == 16 {
        } else if i == 17 {
        } else {
        }
    }
}

/// Render `ts` as the store's `YYYY-MM-DD HH:MM:SS` field.
pub fn format_timestamp(ts: &Timestamp) -> (r: Vec<u8>)
    requires
        ts.wf(),
    ensures
        r@ == ts_bytes(*ts),
{
    let mut r: Vec<u8> = Vec::new();
    r.push((48 + ts.year / 1000) as u8);
    r.push((48 + (ts.year / 100) % 10) as u8);
    r.push((48 + (ts.year / 10) % 10) as u8);
    r.push((48 + ts.year % 10) as u8);
    r.push(45);
    r.push(48 + ts.month / 10);
    r.push(48 + ts.month % 10);
    r.push(45);
    r.push(48 + ts.day / 10);
    r.push(48 + ts.day % 10);
    r.push(32);
    r.push(48 + ts.hour / 10);
    r.push(48 + ts.hour % 10);
    r.push(58);
    r.push(48 + ts.minute / 10);
    r.push(48 + ts.minute % 10);
    r.push(58);
    r.push(48 + ts.second / 10);
    r.push(48 + ts.second % 10);
    proof {
        assert(r@ =~= ts_bytes(*ts));
    }
    r
}

/// Build a timestamp from raw clock components, clamping each into range so
/// that the result is always well-formed; components already in range are
/// kept as they are.
pub fn clamp_clock(year: i32, month: u32, day: u32, hour: u32, minute: u32, second: u32) -> (ts:
    Timestamp)
    ensures
        ts.wf(),
        0 <= year <= 9999 ==> ts.year == year,
        1 <= month <= 12 ==> ts.month == month,
        1 <= day <= 31 ==> ts.day == day,
        hour <= 23 ==> ts.hour == hour,
        minute <= 59 ==> ts.minute == minute,
        second <= 59 ==> ts.second == second,
{
    let y: u16 = if year < 0 {
        0
    } else if year > 9999 {
        9999
    } else {
        year as u16
    };
    let mo: u8 = if month < 1 {
        1
    } else if month > 12 {
        12
    } else {
        month as u8
    };
    let d: u8 = if day < 1 {
        1
    } else if day > 31 {
        31
    } else {
        day as u8
    };
    let h: u8 = if hour > 23 {
        23
    } else {
        hour as u8
    };
    let mi: u8 = if minute > 59 {
        59
    } else {
        minute as u8
    };
    let s: u8 = if second > 59 {
        59
    } else {
        second as u8
    };
    Timestamp { year: y, month: mo, day: d, hour: h, minute: mi, second: s }
}

/// Relies on chrono::Local::now and the Datelike/Timelike accessors: the
/// local calendar components of the current wall-clock time, with month in
/// 1..=12, day in 1..=31, hour below 24, minute and second below 60.
#[verifier::external_body]
fn clock_components() -> (r: (i32, u32, u32, u32, u32, u32))
    ensures
        1 <= r.1 <= 12,
        1 <= r.2 <= 31,
        r.3 <= 23,
        r.4 <= 59,
        r.5 <= 59,
{
    let now = chrono::Local::now();
    (
        chrono::Datelike::year(&now),
        chrono::Datelike::month(&now),
        chrono::Datelike::day(&now),
        chrono::Timelike::hour(&now),
        chrono::Timelike::minute(&now),
        chrono::Timelike::second(&now),
    )
}

/// The current local time as a well-formed timestamp.
pub fn now_timestamp() -> (ts: Timestamp)
    ensures
        ts.wf(),
{
    let (y, mo, d, h, mi, s) = clock_components();
    clamp_clock(y, mo, d, h, mi, s)
}

} // verus!
