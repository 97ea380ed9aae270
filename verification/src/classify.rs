//! Two-band threshold classification of a pairwise distance.
//!
//! Each evaluated pair is held against two independent bands: a
//! minimum-distance band (too close) and a maximum-distance band (too far
//! apart), each with a danger tier and an alert tier. Distances and
//! thresholds are integer millimeters.

use vstd::prelude::*;

verus! {

/// Severity category of a threshold crossing.
#[derive(Clone, Copy, PartialEq, Eq, Structural, Debug)]
pub enum AlertKind {
    AlertMin,
    DangerMin,
    AlertMax,
    DangerMax,
}

impl AlertKind {
    /// The ordinal tag under which the kind travels on the wire.
    pub fn tag(&self) -> (r: u8)
        ensures
            r == match self {
                AlertKind::AlertMin => 0u8,
                AlertKind::DangerMin => 1u8,
                AlertKind::AlertMax => 2u8,
                AlertKind::DangerMax => 3u8,
            },
    {
        match self {
            AlertKind::AlertMin => 0,
            AlertKind::DangerMin => 1,
            AlertKind::AlertMax => 2,
            AlertKind::DangerMax => 3,
        }
    }
}

/// Minimum-band outcome: at or under the threshold is danger, at or under
/// one-and-a-half times the threshold is an alert, farther is quiet.
pub open spec fn spec_classify_min(d: u64, min_mm: u64) -> Option<AlertKind> {
    if d <= min_mm {
        Some(AlertKind::DangerMin)
    } else if 2 * (d as int) <= 3 * (min_mm as int) {
        Some(AlertKind::AlertMin)
    } else {
        None
    }
}

/// Maximum-band outcome: over the threshold is danger, over three quarters
/// of the threshold is an alert, nearer is quiet.
pub open spec fn spec_classify_max(d: u64, max_mm: u64) -> Option<AlertKind> {
    if d > max_mm {
        Some(AlertKind::DangerMax)
    } else if 4 * (d as int) > 3 * (max_mm as int) {
        Some(AlertKind::AlertMax)
    } else {
        None
    }
}

/// Classifies a distance against the minimum-distance band.
pub fn classify_min(d: u64, min_mm: u64) -> (r: Option<AlertKind>)
    ensures
        r == spec_classify_min(d, min_mm),
{
    if d <= min_mm {
        Some(AlertKind::DangerMin)
    } else if 2 * (d as u128) <= 3 * (min_mm as u128) {
        Some(AlertKind::AlertMin)
    } else {
        None
    }
}

/// Classifies a distance against the maximum-distance band.
pub fn classify_max(d: u64, max_mm: u64) -> (r: Option<AlertKind>)
    ensures
        r == spec_classify_max(d, max_mm),
{
    if d > max_mm {
        Some(AlertKind::DangerMax)
    } else if 4 * (d as u128) > 3 * (max_mm as u128) {
        Some(AlertKind::AlertMax)
    } else {
        None
    }
}

/// A distance exactly at the minimum threshold is classified as danger,
/// and a distance exactly at one-and-a-half times the threshold (where
/// that point lies above the threshold) as an alert: both band edges are
/// inclusive.
pub proof fn lemma_min_band_boundary(d: u64, min_mm: u64)
    ensures
        spec_classify_min(min_mm, min_mm) == Some(AlertKind::DangerMin),
        d > min_mm && 2 * (d as int) == 3 * (min_mm as int) ==> spec_classify_min(d, min_mm)
            == Some(AlertKind::AlertMin),
{
}

} // verus!
