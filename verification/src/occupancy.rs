//! The resolved occupancy grid.
//!
//! Resolving a hit/miss accumulator yields, per cell, either the exact
//! ratio of hits to observations (hits plus misses) as an unreduced
//! fraction, or the unknown sentinel for a cell no beam ever passed
//! through.  Turning the ratio into a rendered intensity is left to the
//! consumer.

use vstd::prelude::*;

use crate::frequencymap::{sat_add64, FrequencyMapCell};
use crate::gridmap::GridMap;

verus! {

/// The occupancy estimate of one cell: unknown, or the exact fraction
/// `hits / observations` of the beams observing the cell that ended in
/// it.
#[derive(Clone, Copy, Debug, PartialEq, Eq, Structural)]
pub enum Occupancy {
    /// No beam ever passed through the cell.
    Unknown,
    /// `hits` of `observations` beams ended in the cell; the occupancy
    /// probability is the fraction of the two.
    Known { hits: i64, observations: i64 },
}

/// What a hit/miss cell resolves to: a cell with recorded misses resolves
/// to `hits / (hits + misses)`, a cell without misses to the unknown
/// sentinel (never a division by zero).
pub open spec fn occupancy_of(c: FrequencyMapCell) -> Occupancy {
    if c.misses > 0 {
        Occupancy::Known { hits: c.hits, observations: sat_add64(c.hits, c.misses) }
    } else {
        Occupancy::Unknown
    }
}

/// A grid of resolved occupancy estimates.
pub struct OccupancyMap {
    pub map: GridMap<Occupancy>,
}

} // verus!
