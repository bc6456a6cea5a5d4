//! A mixed-workload key-value benchmark: wire codec, store, per-connection
//! state machines, load-generator bookkeeping and latency aggregation.
//!
//! Everything here is plain computation. Sockets, clocks, threads and the
//! cooperative executor live with the caller, which feeds their outcomes in
//! as plain values.
use vstd::prelude::*;

pub mod bytes;
pub mod client;
pub mod connection;
pub mod error;
pub mod exchange;
pub mod latency;
pub mod packet;
pub mod random;
pub mod server;
pub mod store;
pub mod text;

verus! {

/// Upper bound on keys: random keys are drawn from `0..CAPACITY`.
pub const CAPACITY: usize = 8500000;

/// Wire tag of a best-effort scan.
pub const BE_BYTE: u8 = 6;

/// Wire tag of a latency-critical read.
pub const LC_READ_BYTE: u8 = 7;

/// Wire tag of a latency-critical write.
pub const LC_WRITE_BYTE: u8 = 8;

/// Tag of an absent optional field.
pub const NONE_BYTE: u8 = 0;

/// Tag of a present optional field.
pub const SOME_BYTE: u8 = 1;

/// Number of characters in a randomly generated scan pattern.
pub const SUBSTRING_LEN: usize = 3;

/// Size of the scratch buffer handed to one socket read.
pub const BUF_LEN: usize = 512;

/// Width of every integer field on the wire.
pub const LEN_LENGTH: usize = 8;

/// Significant decimal digits kept by the latency histograms.
pub const SIG_FIG: u8 = 3;

/// A scan yields every `2^YIELD_FREQ` values.
pub const YIELD_FREQ: usize = 5;

} // verus!
