//! Merge line-oriented log sources into one chronologically ordered stream.
//!
//! Each source is classified line by line: a catalog of timestamp formats is
//! tried until one matches, and the source then stays locked to that format.
//! Classified items are merged by timestamp, with an optional column showing
//! the time elapsed since the previous timestamped line.

use vstd::prelude::*;

pub mod interval;
pub mod merge;
pub mod options;
pub mod scan;
pub mod timestamp;
pub mod timestamp_kinds;
pub mod timestamp_stream;

verus! {

/// An absolute point in time, counted in microseconds since
/// 1970-01-01T00:00:00 UTC.
#[derive(Clone, Copy, PartialEq, Eq, Structural, Debug)]
pub struct Timestamp {
    pub micros: i64,
}

} // verus!
