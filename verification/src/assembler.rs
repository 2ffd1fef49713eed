//! The record assembler: a state machine that accumulates readings in the
//! fixed device order Temperature, Humidity, Pressure and emits a completed
//! record when a Pressure reading closes a cycle with every field present.
//! Out-of-order readings never touch a field; they only move the tracking
//! state, so a single dropped or duplicated reading costs at most one cycle.
use vstd::prelude::*;
use crate::clock::Timestamp;
use crate::protocol::{Reading, ReadingKind};
use crate::value::ValueToken;

verus! {

/// One fully assembled record, ready for the store.
pub struct CompletedRecord {
    pub timestamp: Timestamp,
    pub temperature: ValueToken,
    pub humidity: ValueToken,
    pub pressure: ValueToken,
}

impl CompletedRecord {
    pub open spec fn wf(&self) -> bool {
        self.timestamp.wf() && self.temperature.wf() && self.humidity.wf() && self.pressure.wf()
    }
}

/// The assembler's state, with each pending field as its value token's bytes.
pub ghost struct AsmView {
    pub temperature: Option<Seq<u8>>,
    pub humidity: Option<Seq<u8>>,
    pub pressure: Option<Seq<u8>>,
    pub last_kind: Option<ReadingKind>,
}

impl AsmView {
    /// The state the assembler starts in: nothing pending, no reading seen.
    pub open spec fn fresh() -> AsmView {
        AsmView { temperature: None, humidity: None, pressure: None, last_kind: None }
    }

    pub open spec fn all_present(self) -> bool {
        self.temperature is Some && self.humidity is Some && self.pressure is Some
    }
}

/// Whether a reading of kind `k` is accepted when the last accepted-or-seen
/// kind was `last`: each kind requires its predecessor in the cycle, and
/// Temperature opens a cycle both at start and after a close.
pub open spec fn accepts(last: Option<ReadingKind>, k: ReadingKind) -> bool {
    match k {
        ReadingKind::Temperature => last is None || last == Some(ReadingKind::Pressure),
        ReadingKind::Humidity => last == Some(ReadingKind::Temperature),
        ReadingKind::Pressure => last == Some(ReadingKind::Humidity),
    }
}

/// The state after one reading, before any emission: the field is written
/// only when the reading is accepted; the tracking state moves always.
pub open spec fn with_reading(v: AsmView, k: ReadingKind, val: Seq<u8>) -> AsmView {
    let moved = AsmView { last_kind: Some(k), ..v };
    if accepts(v.last_kind, k) {
        match k {
            ReadingKind::Temperature => AsmView { temperature: Some(val), ..moved },
            ReadingKind::Humidity => AsmView { humidity: Some(val), ..moved },
            ReadingKind::Pressure => AsmView { pressure: Some(val), ..moved },
        }
    } else {
        moved
    }
}

/// Whether the reading closes a cycle: it is a Pressure and every field is
/// present once it has been applied.
pub open spec fn closes_record(v: AsmView, k: ReadingKind, val: Seq<u8>) -> bool {
    k is Pressure && with_reading(v, k, val).all_present()
}

/// The state after one reading, emission included: a close empties the
/// fields, and the tracking state remembers the Pressure either way.
pub open spec fn step(v: AsmView, k: ReadingKind, val: Seq<u8>) -> AsmView {
    if closes_record(v, k, val) {
        AsmView {
            temperature: None,
            humidity: None,
            pressure: None,
            last_kind: Some(ReadingKind::Pressure),
        }
    } else {
        with_reading(v, k, val)
    }
}

/// The single in-flight accumulator: at most one record is pending at a time.
pub struct Assembler {
    pub temperature: Option<ValueToken>,
    pub humidity: Option<ValueToken>,
    pub pressure: Option<ValueToken>,
    pub last_kind: Option<ReadingKind>,
}

pub open spec fn opt_token_view(o: Option<ValueToken>) -> Option<Seq<u8>> {
    match o {
        Some(t) => Some(t@),
        None => None,
    }
}

pub open spec fn opt_token_wf(o: Option<ValueToken>) -> bool {
    match o {
        Some(t) => t.wf(),
        None => true,
    }
}

impl View for Assembler {
    type V = AsmView;

    open spec fn view(&self) -> AsmView {
        AsmView {
            temperature: opt_token_view(self.temperature),
            humidity: opt_token_view(self.humidity),
            pressure: opt_token_view(self.pressure),
            last_kind: self.last_kind,
        }
    }
}

impl Assembler {
    /// Every pending field holds a well-formed value token.
    pub open spec fn wf(&self) -> bool {
        opt_token_wf(self.temperature) && opt_token_wf(self.humidity) && opt_token_wf(
            self.pressure,
        )
    }

    /// A fresh assembler: nothing pending, no reading seen.
    pub fn new() -> (a: Assembler)
        ensures
            a@ == AsmView::fresh(),
            a.wf(),
    {
        Assembler { temperature: None, humidity: None, pressure: None, last_kind: None }
    }

    /// Whether the tracking state lets a reading of kind `k` in.
    fn guard(&self, k: ReadingKind) -> (r: bool)
        ensures
            r == accepts(self@.last_kind, k),
    {
        match k {
            ReadingKind::Temperature => match self.last_kind {
                None => true,
                Some(ReadingKind::Pressure) => true,
                _ => false,
            },
            ReadingKind::Humidity => match self.last_kind {
                Some(ReadingKind::Temperature) => true,
                _ => false,
            },
            ReadingKind::Pressure => match self.last_kind {
                Some(ReadingKind::Humidity) => true,
                _ => false,
            },
        }
    }

    /// Feed one reading. The field moves only on an accepted reading; a
    /// Pressure that leaves every field present closes the cycle, emits the
    /// completed record stamped with `ts`, and resets the pending fields.
    pub fn accept(&mut self, r: Reading, ts: Timestamp) -> (emitted: Option<CompletedRecord>)
        requires
            old(self).wf(),
            r.wf(),
            ts.wf(),
        ensures
            final(self)@ == step(old(self)@, r.kind, r.value@),
            final(self).wf(),
            emitted is Some <==> closes_record(old(self)@, r.kind, r.value@),
            emitted matches Some(rec) ==> {
                let applied = with_reading(old(self)@, r.kind, r.value@);
                &&& rec.wf()
                &&& rec.timestamp == ts
                &&& rec.temperature@ == applied.temperature->0
                &&& rec.humidity@ == applied.humidity->0
                &&& rec.pressure@ == applied.pressure->0
            },
    {
        let ok = self.guard(r.kind);
        match r.kind {
            ReadingKind::Temperature => {
                if ok {
                    self.temperature = Some(r.value);
                }
                self.last_kind = Some(ReadingKind::Temperature);
                None
            },
            ReadingKind::Humidity => {
                if ok {
                    self.humidity = Some(r.value);
                }
                self.last_kind = Some(ReadingKind::Humidity);
                None
            },
            ReadingKind::Pressure => {
                if ok {
                    self.pressure = Some(r.value);
                }
                self.last_kind = Some(ReadingKind::Pressure);
                if self.temperature.is_some() && self.humidity.is_some()
                    && self.pressure.is_some() {
                    let t = self.temperature.take();
                    let h = self.humidity.take();
                    let p = self.pressure.take();
                    Some(
                        CompletedRecord {
                            timestamp: ts,
                            temperature: t.unwrap(),
                            humidity: h.unwrap(),
                            pressure: p.unwrap(),
                        },
                    )
                } else {
                    None
                }
            },
        }
    }
}

/// A full cycle in the expected order emits exactly one record. From any
/// state that lets a Temperature in — the start, or any closed cycle — the
/// readings T(v1), H(v2), P(v3) emit nothing at T, nothing at H, and close at
/// P with exactly the three values, leaving the fields empty and the cycle
/// closed.
pub proof fn lemma_full_cycle(v: AsmView, v1: Seq<u8>, v2: Seq<u8>, v3: Seq<u8>)
    requires
        v.last_kind is None || v.last_kind == Some(ReadingKind::Pressure),
    ensures
        !closes_record(v, ReadingKind::Temperature, v1),
        !closes_record(
            step(v, ReadingKind::Temperature, v1),
            ReadingKind::Humidity,
            v2,
        ),
        closes_record(
            step(step(v, ReadingKind::Temperature, v1), ReadingKind::Humidity, v2),
            ReadingKind::Pressure,
            v3,
        ),
        ({
            let after_h = step(step(v, ReadingKind::Temperature, v1), ReadingKind::Humidity, v2);
            let applied = with_reading(after_h, ReadingKind::Pressure, v3);
            &&& applied.temperature == Some(v1)
            &&& applied.humidity == Some(v2)
            &&& applied.pressure == Some(v3)
            &&& step(after_h, ReadingKind::Pressure, v3) == (AsmView {
                temperature: None,
                humidity: None,
                pressure: None,
                last_kind: Some(ReadingKind::Pressure),
            })
        }),
{
}

/// An out-of-order reading never touches a field: it only moves the
/// tracking state, so later readings of the cycle are still judged against
/// what was last seen.
pub proof fn lemma_out_of_order_keeps_fields(v: AsmView, k: ReadingKind, val: Seq<u8>)
    requires
        !accepts(v.last_kind, k),
    ensures
        with_reading(v, k, val).temperature == v.temperature,
        with_reading(v, k, val).humidity == v.humidity,
        with_reading(v, k, val).pressure == v.pressure,
        with_reading(v, k, val).last_kind == Some(k),
        !(k is Pressure) ==> step(v, k, val) == with_reading(v, k, val) && !closes_record(
            v,
            k,
            val,
        ),
{
}

/// No record is emitted except by a Pressure reading, and only when a
/// temperature and a humidity had already been accepted: a spurious record
/// cannot appear before a full cycle's worth of fields is present.
pub proof fn lemma_close_needs_prior_fields(v: AsmView, k: ReadingKind, val: Seq<u8>)
    ensures
        closes_record(v, k, val) ==> k is Pressure && v.temperature is Some && v.humidity is Some,
        !(k is Pressure) ==> step(v, k, val) == with_reading(v, k, val),
{
}

/// The state after a whole sequence of readings, each given as its kind and
/// its value's bytes.
pub open spec fn run(v: AsmView, rs: Seq<(ReadingKind, Seq<u8>)>) -> AsmView
    decreases rs.len(),
{
    if rs.len() == 0 {
        v
    } else {
        run(step(v, rs[0].0, rs[0].1), rs.skip(1))
    }
}

/// Whether any reading of the sequence closes a record along the way.
pub open spec fn emits_during(v: AsmView, rs: Seq<(ReadingKind, Seq<u8>)>) -> bool
    decreases rs.len(),
{
    if rs.len() == 0 {
        false
    } else {
        closes_record(v, rs[0].0, rs[0].1) || emits_during(step(v, rs[0].0, rs[0].1), rs.skip(1))
    }
}

/// Out-of-order input cannot conjure a record: while no Temperature reading
/// arrives, a state with no pending temperature — the fresh state above all —
/// emits nothing, however long the sequence.
pub proof fn lemma_no_record_without_temperature(v: AsmView, rs: Seq<(ReadingKind, Seq<u8>)>)
    requires
        v.temperature is None,
        forall|i: int| 0 <= i < rs.len() ==> !((#[trigger] rs[i]).0 is Temperature),
    ensures
        run(v, rs).temperature is None,
        !emits_during(v, rs),
    decreases rs.len(),
{
    if rs.len() == 0 {
    } else {
        let v1 = step(v, rs[0].0, rs[0].1);
        assert(!(rs[0].0 is Temperature));
        assert(v1.temperature is None);
        assert(!closes_record(v, rs[0].0, rs[0].1));
        assert forall|i: int| 0 <= i < rs.skip(1).len() implies !((#[trigger] rs.skip(1)[i]).0
            is Temperature) by {
            assert(rs.skip(1)[i] == rs[i + 1]);
        }
        lemma_no_record_without_temperature(v1, rs.skip(1));
    }
}

/// A Pressure that closes a cycle with any field still absent emits
/// nothing; the pending fields stay as they were, yet the cycle still counts
/// as closed, so the next Temperature opens a fresh one.
pub proof fn lemma_incomplete_close(v: AsmView, val: Seq<u8>)
    requires
        !with_reading(v, ReadingKind::Pressure, val).all_present(),
    ensures
        !closes_record(v, ReadingKind::Pressure, val),
        step(v, ReadingKind::Pressure, val) == with_reading(v, ReadingKind::Pressure, val),
        step(v, ReadingKind::Pressure, val).last_kind == Some(ReadingKind::Pressure),
        accepts(step(v, ReadingKind::Pressure, val).last_kind, ReadingKind::Temperature),
{
}

} // verus!
