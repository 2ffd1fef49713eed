//! The acquisition pipeline: one transport chunk in, at most one completed
//! record out. Decode and parse failures are recoverable diagnostics — a
//! garbled read or reading is skipped and the loop goes on — and the
//! transport's wait-expired case is ordinary quiet flow. The surrounding
//! application only performs the reads and forwards the events.
use vstd::prelude::*;
use crate::assembler::{Assembler, AsmView, CompletedRecord, closes_record, step, with_reading};
use crate::clock::now_timestamp;
use crate::protocol::{
    chunk_text_ok,
    decode_chunk,
    line_kind,
    line_malformed,
    line_tagged,
    line_value,
    parse_line,
    LineOutcome,
};

verus! {

/// A recoverable condition one loop iteration can report.
#[derive(Clone, Copy, PartialEq, Eq, Structural, Debug)]
pub enum Fault {
    /// The chunk's bytes were not text; the chunk is skipped.
    Decode,
    /// A tagged line carried no parsable numeric value; the reading is skipped.
    Parse,
    /// The transport failed in a way other than an expired wait.
    Transport,
}

/// The diagnostic one chunk produces, if any.
pub open spec fn chunk_diag(buf: Seq<u8>, n: int) -> Option<Fault> {
    if !chunk_text_ok(buf, n) {
        Some(Fault::Decode)
    } else if line_malformed(buf.take(n)) {
        Some(Fault::Parse)
    } else {
        None
    }
}

/// Whether one chunk carries a reading the assembler will see.
pub open spec fn chunk_reading(buf: Seq<u8>, n: int) -> bool {
    chunk_text_ok(buf, n) && line_tagged(buf.take(n)) && !line_malformed(buf.take(n))
}

/// The assembler state after one chunk: stepped by the chunk's reading, or
/// left alone when the chunk is skipped or ignored.
pub open spec fn chunk_step(v: AsmView, buf: Seq<u8>, n: int) -> AsmView {
    if chunk_reading(buf, n) {
        step(v, line_kind(buf.take(n)), line_value(buf.take(n)))
    } else {
        v
    }
}

/// Whether one chunk closes a record.
pub open spec fn chunk_closes(v: AsmView, buf: Seq<u8>, n: int) -> bool {
    chunk_reading(buf, n) && closes_record(v, line_kind(buf.take(n)), line_value(buf.take(n)))
}

/// What one loop iteration produced.
pub struct Outcome {
    /// The record a closing Pressure reading completed, if any.
    pub emitted: Option<CompletedRecord>,
    /// A recoverable condition to report, if any.
    pub diagnostic: Option<Fault>,
}

/// One bounded-wait transport read, as the application saw it.
pub enum ReadEvent {
    /// A read returned `len` valid bytes at the front of `chunk`.
    Data { chunk: Vec<u8>, len: usize },
    /// The bounded wait expired with nothing to read: a quiet iteration.
    WaitExpired,
    /// Any other transport failure: reported, never fatal.
    TransportFault,
}

/// The pipeline's state: the single in-flight pending record.
pub struct Pipeline {
    pub assembler: Assembler,
}

impl Pipeline {
    pub open spec fn wf(&self) -> bool {
        self.assembler.wf()
    }

    pub fn new() -> (p: Pipeline)
        ensures
            p.wf(),
            p.assembler@ == AsmView::fresh(),
    {
        Pipeline { assembler: Assembler::new() }
    }

    /// Run one received chunk — its first `n` bytes — through decode, parse
    /// and assembly. The emitted record, when one closes, carries the
    /// chunk's value tokens and a well-formed wall-clock timestamp.
    pub fn handle_chunk(&mut self, buf: &Vec<u8>, n: usize) -> (r: Outcome)
        requires
            old(self).wf(),
            n <= buf.len(),
        ensures
            final(self).wf(),
            final(self).assembler@ == chunk_step(old(self).assembler@, buf@, n as int),
            r.diagnostic == chunk_diag(buf@, n as int),
            r.emitted is Some <==> chunk_closes(old(self).assembler@, buf@, n as int),
            r.emitted matches Some(rec) ==> {
                let line = buf@.take(n as int);
                let applied = with_reading(
                    old(self).assembler@,
                    line_kind(line),
                    line_value(line),
                );
                &&& rec.wf()
                &&& rec.temperature@ == applied.temperature->0
                &&& rec.humidity@ == applied.humidity->0
                &&& rec.pressure@ == applied.pressure->0
            },
    {
        match decode_chunk(buf, n) {
            None => Outcome { emitted: None, diagnostic: Some(Fault::Decode) },
            Some(line) => match parse_line(&line) {
                LineOutcome::Ignored => Outcome { emitted: None, diagnostic: None },
                LineOutcome::Malformed => Outcome { emitted: None, diagnostic: Some(Fault::Parse) },
                LineOutcome::Reading(rd) => {
                    let ts = now_timestamp();
                    let emitted = self.assembler.accept(rd, ts);
                    Outcome { emitted, diagnostic: None }
                },
            },
        }
    }

    /// Handle one transport event: data feeds the pipeline, an expired wait
    /// is a quiet iteration, and any other failure is only reported. The
    /// loop itself never stops on any of them.
    pub fn handle_event(&mut self, ev: ReadEvent) -> (r: Outcome)
        requires
            old(self).wf(),
            ev matches ReadEvent::Data { chunk, len } ==> len <= chunk@.len(),
        ensures
            final(self).wf(),
            ev is WaitExpired ==> final(self).assembler@ == old(self).assembler@
                && r.emitted is None && r.diagnostic is None,
            ev is TransportFault ==> final(self).assembler@ == old(self).assembler@
                && r.emitted is None && r.diagnostic == Some(Fault::Transport),
            ev matches ReadEvent::Data { chunk, len } ==> {
                &&& final(self).assembler@ == chunk_step(
                    old(self).assembler@,
                    chunk@,
                    len as int,
                )
                &&& r.diagnostic == chunk_diag(chunk@, len as int)
                &&& (r.emitted is Some <==> chunk_closes(old(self).assembler@, chunk@, len as int))
                &&& (r.emitted matches Some(rec) ==> rec.wf())
            },
    {
        match ev {
            ReadEvent::Data { chunk, len } => self.handle_chunk(&chunk, len),
            ReadEvent::WaitExpired => Outcome { emitted: None, diagnostic: None },
            ReadEvent::TransportFault => Outcome {
                emitted: None,
                diagnostic: Some(Fault::Transport),
            },
        }
    }
}

} // verus!
