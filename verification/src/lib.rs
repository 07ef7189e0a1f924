//! Orchestration layer for an external STARK proof engine.
//!
//! The crate owns the on-disk protocol spoken with the engine: it models the
//! JSON documents exchanged with it, renders and parses them with verified
//! codecs, prepares a single-use working directory holding every input file,
//! invokes the engine as a child process, and decodes the proof it writes.

pub mod json;
pub mod codec;
pub mod error;
pub mod models;
pub mod prover;

pub use json::Json;
