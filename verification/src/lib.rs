//! Library for a remote timing-oracle guesser: a delimiter-seeking stream
//! matcher that skips a known prompt, score aggregation over repeated latency
//! samples, maximum-score candidate selection, and the incremental solver
//! state that grows a plaintext guess one byte per round until a terminator
//! byte appears.
//!
//! All network and thread plumbing lives outside this crate; the library
//! works on plain byte sequences and integer latencies.

pub mod candidate;
pub mod ranker;
pub mod reader;
pub mod sampler;
pub mod solver;
