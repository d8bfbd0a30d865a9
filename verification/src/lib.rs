//! Coverage accounting for smart-contract test suites.
//!
//! Execution is observed as hit counts per bytecode instruction offset; this
//! library carries those counts through a contract's source map onto the
//! statements, branches and line markers of its source files, accumulates
//! them over a whole test run, and renders the result.

pub mod artifacts;
pub mod collect;
pub mod extract;
pub mod hits;
pub mod identity;
pub mod item;
pub mod laws;
pub mod lcov;
pub mod map;
pub mod prepare;
pub mod report;
pub mod source_map;
pub mod summary;
pub mod text;
