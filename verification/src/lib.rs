//! Proximity-detection engine: a latest-known-state table of mobile entities,
//! keyed by entity id, evaluated periodically for pairwise distance alerts.
//!
//! The library holds the verified core: the state table with its
//! detach/merge discipline, the unordered-pair enumeration, and the
//! two-band threshold classification. Distances are carried as integer
//! millimeters; the surrounding process computes them and moves messages.

pub mod classify;
pub mod evaluate;
pub mod table;

use vstd::prelude::*;

verus! {

/// A geographic position, in microdegrees of latitude and longitude
/// (one microdegree is 1e-6 of a degree).
#[derive(Clone, Copy, PartialEq, Eq, Structural, Debug)]
pub struct Position {
    pub lat_udeg: i64,
    pub lng_udeg: i64,
}

} // verus!
