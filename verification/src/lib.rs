//! Backend state layer of a desktop media viewer.
//!
//! Three pieces: a pure extension filter over paths (`paths`), a store that
//! holds the canonical application state and a log of every mutation applied
//! to it (`state`), and the pure decision core of the startup directory scan
//! (`scanner`). I/O — reading the process arguments, listing a directory,
//! pushing events to a window — lives outside this crate; the functions here
//! take and return plain values and are verified.

pub mod paths;
pub mod scanner;
pub mod state;
