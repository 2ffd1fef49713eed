//! A verified core for a serial environmental-sensor logger: the wire-protocol
//! tokenizer and parser, the record-assembly state machine, and the
//! delimited-text record store, with the transport and presentation kept in
//! the surrounding application.
pub mod assembler;
pub mod clock;
pub mod pipeline;
pub mod protocol;
pub mod scan;
pub mod store;
pub mod value;
