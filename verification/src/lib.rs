//! Verified core of a concurrent HTTP directory brute-forcer.
//!
//! The library holds the scan pipeline's logic: candidate-URL generation
//! over a sharded wordlist, response classification, per-host calibration
//! that suppresses catch-all noise, the scheduler's queue and termination
//! bookkeeping, and the output formatting contracts. The surrounding
//! process (HTTP transport, threads, channels, signal handling, file
//! output) is ordinary Rust that calls into these verified functions.

pub mod output_format;
pub mod request;
pub mod scheduler;
pub mod text;
pub mod validator;
pub mod wordlist;
