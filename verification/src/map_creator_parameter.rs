//! The configuration bundle of the map builder.

use vstd::prelude::*;

use crate::gridmap::RES_LIMIT;
use crate::pose::{Pose, COORD_LIMIT, TRIG_ONE};

verus! {

/// Configuration of a map construction run.  Lengths are world subunits;
/// the defaults assume a millimeter subunit (a 0.1-unit resolution, a
/// 20-unit range, a 2-unit border).
#[derive(Clone, Copy, Debug)]
pub struct MapCreatorParameter {
    /// Max range of the laser scanner data.
    pub max_range: i64,
    /// Max usable range of the laser data.
    pub max_usable_range: i64,
    /// Resolution of the map.
    pub resolution: i64,
    /// Offset of the map; can be set automatically from the first pose.
    pub offset: Pose,
    /// Border around the map which is set to unknown.
    pub border: i64,
    /// Set the first pose of the trajectory to zero.
    pub zero_first_pose: bool,
    /// Print some verbose information while creating the map.
    pub verbose: bool,
}

impl MapCreatorParameter {
    /// The configuration is within the bounds the fixed-point arithmetic
    /// supports.  The offset gets twice the translation headroom of raw
    /// input poses: zeroing the first pose stores an inverted pose here.
    pub open spec fn wf(self) -> bool {
        &&& 0 <= self.max_range <= COORD_LIMIT
        &&& 0 <= self.max_usable_range <= COORD_LIMIT
        &&& 1 <= self.resolution <= RES_LIMIT
        &&& 0 <= self.border <= COORD_LIMIT
        &&& self.offset.rot_wf()
        &&& self.offset.pos_bounded(2 * (COORD_LIMIT as int))
    }
}

impl Default for MapCreatorParameter {
    /// A 0.1-unit resolution, 20-unit max and usable range, 2-unit
    /// border, identity offset, and both flags off.
    fn default() -> (r: MapCreatorParameter)
        ensures
            r.max_range == 20_000,
            r.max_usable_range == 20_000,
            r.resolution == 100,
            r.offset == (Pose { x: 0, y: 0, c: TRIG_ONE, s: 0 }),
            r.border == 2_000,
            !r.zero_first_pose,
            !r.verbose,
            r.wf(),
    {
        MapCreatorParameter {
            max_range: 20_000,
            max_usable_range: 20_000,
            resolution: 100,
            offset: Pose { x: 0, y: 0, c: TRIG_ONE, s: 0 },
            border: 2_000,
            zero_first_pose: false,
            verbose: false,
        }
    }
}

} // verus!
