//! Binary-bloat comparison engine.
//!
//! The library analyzes two builds of the same native executable, attributes
//! every byte of the code section and every line of emitted intermediate
//! representation (IR) to a responsible crate, aggregates the result into a
//! `BuildContext` per build, and computes a structured `Diff` between the two.

pub mod aggregate;
pub mod assemble;
pub mod attribute;
pub mod binary;
pub mod catalog;
pub mod cliopts;
pub mod colors;
pub mod deltasort;
pub mod diff;
pub mod driver;
pub mod gitplan;
pub mod irscan;
pub mod laws;
pub mod model;
pub mod numfmt;
pub mod report;
pub mod strutil;
