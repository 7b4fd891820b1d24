//! A point walks through a bounded square, along a line or an outward spiral,
//! until it leaves; every position it visits is recorded and can be kept in a
//! line-oriented text log.
//!
//! The library holds the rules: which pattern a code selects, when a position
//! lies outside the square, how a walk proceeds from one recorded position to
//! the next, and what a log line must look like. Moving a pen, measuring
//! distances and touching files are left to the caller.

pub mod log;
pub mod numeral;
pub mod pattern;
pub mod rank;
pub mod region;
pub mod roundtrip;
pub mod scan;
pub mod store;
pub mod walk;
