//! A time-windowed, bit-level access-control gate.
//!
//! For a given epoch (a fixed window of 432,000 slots) the library tracks
//! which slots are gated (blocked) in a packed bitmap stored inside a raw
//! byte record. The record grows incrementally toward full epoch coverage
//! under a strict per-call growth quota, is mutated by validated batches of
//! gate/ungate requests, and answers a minimal-read point query on the hot
//! path that fails open on any malformed input.

pub mod benchmarks;
pub mod bulk;
pub mod constants;
pub mod epoch;
pub mod errors;
pub mod expand;
pub mod laws;
pub mod lifecycle;
pub mod mutate;
pub mod query;
pub mod record;
