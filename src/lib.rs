//! A byte-level conformance harness for framed binary protocols spoken over a
//! local stream socket: script tokens, script lines, the comparison engine and
//! the run schedule, each with its contract.

pub mod token;
pub mod script;
pub mod engine;
pub mod runner;
