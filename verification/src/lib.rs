//! A library for finding running processes by executable path or by program
//! name, built around a scan of a process-table snapshot.
//!
//! The library has three parts: interpreting a command-line argument vector
//! into a configuration and a target ([`args`]), the two byte-exact matching
//! rules selected by the shape of the target ([`matching`]), and the scan of
//! a process-table snapshot that reports the identifiers of the matching
//! processes ([`scan`]).

pub mod args;
pub mod matching;
pub mod scan;
