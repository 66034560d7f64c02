//! Bridge between a local circuit compiler and an out-of-process
//! distributed prover.
//!
//! The crate synthesizes a batch of arithmetic circuits into flattened
//! field-element assignment vectors, encodes them in the handoff wire
//! format together with a reference to a proving key, drives the
//! invocation of the external prover, and decodes the binary proof
//! stream the prover returns.
//!
//! - [`field`]: scalar-field elements, held as canonical byte
//!   representations; arithmetic delegated to the curve library.
//! - [`accum`]: the per-circuit constraint accumulator with its
//!   assignment columns, evaluation vectors and density trackers.
//! - [`synth`]: the circuit trait and the parallel batch synthesizer.
//! - [`wire`]: the handoff wire format, its round trip proved.
//! - [`session`]: the handoff session state machine that drives the
//!   external prover invocation.
//! - [`proofdec`]: the decoder for the prover's binary proof stream.
//! - [`errors`]: the batch-fatal error taxonomy.

pub mod accum;
pub mod errors;
pub mod field;
pub mod proofdec;
pub mod session;
pub mod synth;
pub mod wire;
