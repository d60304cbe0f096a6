//! Correlation and fusion engine for multi-source intelligence records.
//!
//! Observations about real-world objects arrive independently from several
//! sources.  The library scores how likely two observations describe the same
//! object, groups transitively related observations, merges each group into a
//! single canonical record under a configurable strategy, and rates the
//! quality of the merged record.
//!
//! Confidence values are fixed-point numbers: a confidence of 1.0 is stored
//! as [`CONF_SCALE`].  Timestamps are seconds since the Unix epoch, locations
//! are WGS84 coordinates in microdegrees, and distances are millimetres, so
//! that every quantity the engine reasons about is an integer.

use vstd::prelude::*;

pub mod error;
pub mod fusion;
pub mod grouping;
pub mod intel;
pub mod models;
pub mod numeric;
pub mod platform;
pub mod text;
pub mod threat;
pub mod trusted;

verus! {

/// Scale of the fixed-point confidence representation: a confidence of 1.0
/// is stored as `CONF_SCALE`, so every confidence lies in `0 ..= CONF_SCALE`.
pub const CONF_SCALE: u64 = 1_000_000;

/// Clamp a raw fixed-point value into the valid confidence range.
pub fn clamp_confidence(c: u64) -> (r: u64)
    ensures
        r == if c > CONF_SCALE { CONF_SCALE as int } else { c as int },
        r <= CONF_SCALE,
{
    if c > CONF_SCALE {
        CONF_SCALE
    } else {
        c
    }
}

} // verus!
