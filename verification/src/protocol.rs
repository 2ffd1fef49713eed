//! The wire protocol: decoding one transport chunk into a logical line and
//! classifying the line as a tagged sensor reading. A line reads
//! `<TAG> <value>` with TAG one of `T`, `H`, `P`; anything else is ignored,
//! and a tagged line whose value is not a decimal literal is malformed.
use vstd::prelude::*;
use crate::scan::{idx_of, trimmed, lemma_idx_of_bounds, find_from, trim_bytes};
use crate::value::{is_float_token, check_float_token, ValueToken};

verus! {

/// The kind of one sensor reading.
#[derive(Clone, Copy, PartialEq, Eq, Structural, Debug)]
pub enum ReadingKind {
    Temperature,
    Humidity,
    Pressure,
}

/// One classified reading: its kind and its value token.
pub struct Reading {
    pub kind: ReadingKind,
    pub value: ValueToken,
}

impl Reading {
    pub open spec fn wf(&self) -> bool {
        self.value.wf()
    }
}

/// True of the bytes the wire protocol may carry: plain ASCII.
pub open spec fn ascii_byte(b: u8) -> bool {
    b < 128
}

/// Whether the first `n` bytes of a chunk decode as text.
pub open spec fn chunk_text_ok(buf: Seq<u8>, n: int) -> bool {
    forall|i: int| 0 <= i < n ==> ascii_byte(buf[i])
}

/// Decode the first `n` received bytes of a transport chunk as one logical
/// line; fails exactly when they are not text.
pub fn decode_chunk(buf: &Vec<u8>, n: usize) -> (r: Option<Vec<u8>>)
    requires
        n <= buf.len(),
    ensures
        r is Some <==> chunk_text_ok(buf@, n as int),
        r matches Some(line) ==> line@ == buf@.take(n as int),
{
    let mut i: usize = 0;
    let mut line: Vec<u8> = Vec::new();
    while i < n
        invariant
            0 <= i <= n <= buf.len(),
            line@ =~= buf@.take(i as int),
            forall|j: int| 0 <= j < i ==> ascii_byte(buf@[j]),
        decreases n - i,
    {
        let b = buf[i];
        if b >= 128 {
            return None;
        }
        line.push(b);
        i = i + 1;
    }
    proof {
        assert(line@ =~= buf@.take(n as int));
    }
    Some(line)
}

/// The protocol tag a byte stands for, if any.
pub open spec fn tag_kind(b: u8) -> Option<ReadingKind> {
    if b == 84 {
        Some(ReadingKind::Temperature)
    } else if b == 72 {
        Some(ReadingKind::Humidity)
    } else if b == 80 {
        Some(ReadingKind::Pressure)
    } else {
        None
    }
}

/// Whether the line begins (after surrounding whitespace) with a known tag.
pub open spec fn line_tagged(line: Seq<u8>) -> bool {
    trimmed(line).len() > 0 && tag_kind(trimmed(line)[0]) is Some
}

/// The kind a tagged line announces.
pub open spec fn line_kind(line: Seq<u8>) -> ReadingKind
    recommends
        line_tagged(line),
{
    tag_kind(trimmed(line)[0])->0
}

/// Whether a delimiter, and so a second token, follows the tag token.
pub open spec fn line_has_value(line: Seq<u8>) -> bool {
    idx_of(trimmed(line), 32) < trimmed(line).len()
}

/// The second space-separated token of the line, with surrounding whitespace
/// removed: the value the reading carries.
pub open spec fn line_value(line: Seq<u8>) -> Seq<u8>
    recommends
        line_has_value(line),
{
    let t = trimmed(line);
    let rest = t.skip(idx_of(t, 32) + 1);
    trimmed(rest.take(idx_of(rest, 32)))
}

/// A tagged line whose value token is missing or is not a decimal literal.
pub open spec fn line_malformed(line: Seq<u8>) -> bool {
    line_tagged(line) && (!line_has_value(line) || !is_float_token(line_value(line)))
}

/// What the parser made of one line.
pub enum LineOutcome {
    /// A well-formed reading.
    Reading(Reading),
    /// No tag: the line is silently ignored.
    Ignored,
    /// A tagged line with a missing or non-numeric value.
    Malformed,
}

/// Classify one decoded line.
pub fn parse_line(line: &Vec<u8>) -> (r: LineOutcome)
    ensures
        r is Ignored <==> !line_tagged(line@),
        r is Malformed <==> line_malformed(line@),
        r matches LineOutcome::Reading(rd) ==> {
            &&& line_tagged(line@)
            &&& rd.kind == line_kind(line@)
            &&& line_has_value(line@)
            &&& rd.value@ == line_value(line@)
            &&& rd.wf()
        },
{
    let t = trim_bytes(line);
    if t.len() == 0 {
        return LineOutcome::Ignored;
    }
    let kind = if t[0] == 84 {
        ReadingKind::Temperature
    } else if t[0] == 72 {
        ReadingKind::Humidity
    } else if t[0] == 80 {
        ReadingKind::Pressure
    } else {
        return LineOutcome::Ignored;
    };
    let k1 = find_from(&t, 0, 32);
    proof {
        assert(t@.skip(0) =~= t@);
        lemma_idx_of_bounds(t@, 32);
    }
    if k1 == t.len() {
        return LineOutcome::Malformed;
    }
    let k2 = find_from(&t, k1 + 1, 32);
    let mut raw: Vec<u8> = Vec::new();
    let mut i = k1 + 1;
    while i < k2
        invariant
            k1 + 1 <= i <= k2 <= t.len(),
            raw@ =~= t@.subrange(k1 + 1, i as int),
        decreases k2 - i,
    {
        raw.push(t[i]);
        i = i + 1;
    }
    proof {
        let rest = t@.skip(k1 + 1);
        assert(rest.take(k2 - (k1 + 1)) =~= t@.subrange(k1 + 1, k2 as int));
    }
    let tok = trim_bytes(&raw);
    if check_float_token(&tok) {
        LineOutcome::Reading(Reading { kind, value: ValueToken { bytes: tok } })
    } else {
        LineOutcome::Malformed
    }
}

} // verus!
