//! Orchestration of one map construction run: bounds estimation, grid
//! allocation with a padded border, and sequential scan integration.
//!
//! The accumulator must be allocated before scans are integrated;
//! integrating first is a programming error, which the caller rules out
//! up front.

use vstd::prelude::*;

use crate::boundaries::{boundaries, scan_bounds, BBox};
use crate::frequencymap::{effective_max, effective_usable, scan_grid, FrequencyMap,
    FrequencyMapCell};
use crate::gridmap::{GridMap, GRID_DIM_LIMIT};
use crate::map_creator_parameter::MapCreatorParameter;
use crate::pose::{absi, spec_compose, spec_inverse, Point, COORD_LIMIT};
use crate::robot_data::RobotLaser;

verus! {

/// The parameter bundle after seeing one scan: zeroing the first pose
/// stores that scan's inverted pose as the offset, once.
pub open spec fn param_after(p: MapCreatorParameter, scan: RobotLaser) -> MapCreatorParameter {
    if p.zero_first_pose {
        MapCreatorParameter {
            offset: spec_inverse(scan.odom_pose),
            zero_first_pose: false,
            ..p
        }
    } else {
        p
    }
}

/// The max range used for one scan: the configured maximum, lowered to
/// the sensor's own.
pub open spec fn scan_my_max(p: MapCreatorParameter, scan: RobotLaser) -> i64 {
    if p.max_range < scan.laser_params.max_range {
        p.max_range
    } else {
        scan.laser_params.max_range
    }
}

/// The usable range used for one scan: the configured usable range,
/// lowered to the sensor's own maximum.
pub open spec fn scan_my_usable(p: MapCreatorParameter, scan: RobotLaser) -> i64 {
    if p.max_usable_range < scan.laser_params.max_range {
        p.max_usable_range
    } else {
        scan.laser_params.max_range
    }
}

/// The parameter bundle and bounding box after estimating bounds over the
/// first `n` scans, in order.
pub open spec fn boundaries_fold(
    scans: Seq<RobotLaser>,
    n: int,
    p: MapCreatorParameter,
    cur: BBox,
) -> (MapCreatorParameter, BBox)
    decreases n,
{
    if n <= 0 {
        (p, cur)
    } else {
        let prev = boundaries_fold(scans, n - 1, p, cur);
        let p2 = param_after(prev.0, scans[n - 1]);
        let tp = spec_compose(p2.offset, spec_compose(scans[n - 1].odom_pose,
            scans[n - 1].laser_params.laser_pose));
        let b2 = scan_bounds(tp, scans[n - 1], Some(scan_my_max(p2, scans[n - 1])), Some(
            scan_my_usable(p2, scans[n - 1])), prev.1);
        (p2, b2)
    }
}

/// The accumulator buffer after integrating the first `n` scans, in
/// order, under the parameter bundle `p`.
pub open spec fn scans_grid(
    m0: GridMap<FrequencyMapCell>,
    grid: Seq<FrequencyMapCell>,
    scans: Seq<RobotLaser>,
    n: int,
    p: MapCreatorParameter,
) -> Seq<FrequencyMapCell>
    decreases n,
{
    if n <= 0 {
        grid
    } else {
        let prev = scans_grid(m0, grid, scans, n - 1, p);
        let scan = scans[n - 1];
        let robot = spec_compose(p.offset, scan.odom_pose);
        let lp = spec_compose(robot, scan.laser_params.laser_pose);
        let emax = effective_max(scan.laser_params.max_range, Some(scan_my_max(p, scan)));
        scan_grid(
            m0,
            prev,
            lp,
            scan.laser_params.beam_rots@,
            scan.ranges@,
            scan.ranges@.len() as int,
            emax,
            effective_usable(emax, Some(scan_my_usable(p, scan))),
            1i64,
        )
    }
}

/// One grid dimension of the allocated map: the padded extent, divided by
/// the resolution, rounded up.
pub open spec fn alloc_dim(mn: int, mx: int, border: int, res: int) -> int {
    (mx - mn + 2 * border + res - 1) / res
}

/// Builds an occupancy-grid accumulator from a scan set: estimates
/// bounds, allocates the padded grid, and integrates every scan.
pub struct MapCreator {
    pub parameter: MapCreatorParameter,
    pub boundaries_min: Point,
    pub boundaries_max: Point,
    pub fmap: Option<FrequencyMap>,
}

impl MapCreator {
    /// The running bounding box of `self` as a ghost value.
    pub open spec fn bbox(self) -> BBox {
        BBox {
            min_x: self.boundaries_min.x as int,
            min_y: self.boundaries_min.y as int,
            max_x: self.boundaries_max.x as int,
            max_y: self.boundaries_max.y as int,
        }
    }

    /// A fresh builder: empty bounds (the minimum above the maximum, so
    /// the first point covers both) and no map allocated yet.
    pub fn new(parameter: MapCreatorParameter) -> (r: MapCreator)
        ensures
            r.parameter == parameter,
            r.boundaries_min == (Point { x: i64::MAX, y: i64::MAX }),
            r.boundaries_max == (Point { x: i64::MIN, y: i64::MIN }),
            r.fmap is None,
    {
        MapCreator {
            parameter,
            boundaries_min: Point { x: i64::MAX, y: i64::MAX },
            boundaries_max: Point { x: i64::MIN, y: i64::MIN },
            fmap: None,
        }
    }

    /// Widens the running bounding box over every scan, in order: the
    /// transformed sensor position and every valid, clipped beam
    /// endpoint.  When the zero-first-pose flag is set, the offset is
    /// first set, once, to the inverse of the first scan's pose, and the
    /// flag is consumed.
    pub fn update_boundaries(&mut self, scans: &[RobotLaser])
        requires
            old(self).parameter.wf(),
            forall|i: int| 0 <= i < scans@.len() ==> (#[trigger] scans@[i]).wf(),
        ensures
            final(self).fmap == old(self).fmap,
            final(self).boundaries_min.x as int == boundaries_fold(scans@, scans@.len() as int,
                old(self).parameter, old(self).bbox()).1.min_x,
            final(self).boundaries_min.y as int == boundaries_fold(scans@, scans@.len() as int,
                old(self).parameter, old(self).bbox()).1.min_y,
            final(self).boundaries_max.x as int == boundaries_fold(scans@, scans@.len() as int,
                old(self).parameter, old(self).bbox()).1.max_x,
            final(self).boundaries_max.y as int == boundaries_fold(scans@, scans@.len() as int,
                old(self).parameter, old(self).bbox()).1.max_y,
            final(self).parameter == boundaries_fold(scans@, scans@.len() as int,
                old(self).parameter, old(self).bbox()).0,
            final(self).parameter.wf(),
    {
        let n = scans.len();
        let mut i: usize = 0;
        while i < n
            invariant
                self.parameter.wf(),
                forall|k: int| 0 <= k < scans@.len() ==> (#[trigger] scans@[k]).wf(),
                i <= n,
                n == scans@.len(),
                self.fmap == old(self).fmap,
                (self.parameter, self.bbox()) == boundaries_fold(scans@, i as int,
                    old(self).parameter, old(self).bbox()),
            decreases n - i,
        {
            let rl = &scans[i];
            if self.parameter.zero_first_pose {
                self.parameter.zero_first_pose = false;
                self.parameter.offset = rl.odom_pose.inverse();
            }
            proof {
                assert(self.parameter == param_after(boundaries_fold(scans@, i as int,
                    old(self).parameter, old(self).bbox()).0, scans@[i as int]));
            }
            let my_max: i64 = if self.parameter.max_range < rl.laser_params.max_range {
                self.parameter.max_range
            } else {
                rl.laser_params.max_range
            };
            let my_usable: i64 = if self.parameter.max_usable_range < rl.laser_params.max_range {
                self.parameter.max_usable_range
            } else {
                rl.laser_params.max_range
            };
            let offset = self.parameter.offset;
            boundaries(
                &mut self.boundaries_min,
                &mut self.boundaries_max,
                &offset,
                rl,
                Some(my_max),
                Some(my_usable),
            );
            i = i + 1;
        }
    }

    /// Allocates the accumulator: the estimated bounds, widened by the
    /// border on all sides, at the configured resolution, all counts
    /// zero.  Estimating bounds first (at least one scan) is the caller's
    /// obligation, as are the machine limits on the resulting size.
    pub fn allocate_map(&mut self)
        requires
            old(self).parameter.wf(),
            old(self).boundaries_min.x <= old(self).boundaries_max.x,
            old(self).boundaries_min.y <= old(self).boundaries_max.y,
            absi(old(self).boundaries_min.x as int) <= 16 * (COORD_LIMIT as int),
            absi(old(self).boundaries_min.y as int) <= 16 * (COORD_LIMIT as int),
            absi(old(self).boundaries_max.x as int) <= 16 * (COORD_LIMIT as int),
            absi(old(self).boundaries_max.y as int) <= 16 * (COORD_LIMIT as int),
            alloc_dim(old(self).boundaries_min.x as int, old(self).boundaries_max.x as int,
                old(self).parameter.border as int, old(self).parameter.resolution as int)
                <= GRID_DIM_LIMIT,
            alloc_dim(old(self).boundaries_min.y as int, old(self).boundaries_max.y as int,
                old(self).parameter.border as int, old(self).parameter.resolution as int)
                <= GRID_DIM_LIMIT,
            alloc_dim(old(self).boundaries_min.x as int, old(self).boundaries_max.x as int,
                old(self).parameter.border as int, old(self).parameter.resolution as int)
                * alloc_dim(old(self).boundaries_min.y as int, old(self).boundaries_max.y as int,
                old(self).parameter.border as int, old(self).parameter.resolution as int)
                <= usize::MAX,
        ensures
            final(self).parameter == old(self).parameter,
            final(self).boundaries_min == old(self).boundaries_min,
            final(self).boundaries_max == old(self).boundaries_max,
            final(self).fmap matches Some(f) && f.wf() && f.map.spec_width() == alloc_dim(
                old(self).boundaries_min.x as int,
                old(self).boundaries_max.x as int,
                old(self).parameter.border as int,
                old(self).parameter.resolution as int,
            ) && f.map.spec_height() == alloc_dim(
                old(self).boundaries_min.y as int,
                old(self).boundaries_max.y as int,
                old(self).parameter.border as int,
                old(self).parameter.resolution as int,
            ) && f.map.spec_resolution() == old(self).parameter.resolution && f.map.spec_offset_x()
                == old(self).boundaries_min.x - old(self).parameter.border
                && f.map.spec_offset_y() == old(self).boundaries_min.y - old(
                self,
            ).parameter.border && forall|i: int|
                0 <= i < f.map@.len() ==> f.map@[i] == (FrequencyMapCell { hits: 0, misses: 0 }),
    {
        let res = self.parameter.resolution;
        let border = self.parameter.border;
        let dx: i64 = self.boundaries_max.x - self.boundaries_min.x + 2 * border + (res - 1);
        let dy: i64 = self.boundaries_max.y - self.boundaries_min.y + 2 * border + (res - 1);
        proof {
            crate::gridmap::lemma_floor_div_bounds(dx as int, res as int);
            crate::gridmap::lemma_floor_div_bounds(dy as int, res as int);
        }
        let wx: i64 = crate::gridmap::floor_div(dx, res);
        let wy: i64 = crate::gridmap::floor_div(dy, res);
        let width: usize = wx as usize;
        let height: usize = wy as usize;
        let fmap = FrequencyMap::new(
            width,
            height,
            res,
            self.boundaries_min.x - border,
            self.boundaries_min.y - border,
        );
        self.fmap = Some(fmap);
    }

    /// Integrates every scan, in input order, into the allocated
    /// accumulator.  Calling this without an allocated map is a
    /// programming error, which the precondition rules out; the resulting
    /// buffer is exactly the fold of the scans over the allocated one.
    pub fn integrate_scans(&mut self, scans: &[RobotLaser])
        requires
            old(self).parameter.wf(),
            forall|i: int| 0 <= i < scans@.len() ==> (#[trigger] scans@[i]).wf(),
            old(self).fmap matches Some(f) && f.wf(),
        ensures
            final(self).parameter == old(self).parameter,
            final(self).boundaries_min == old(self).boundaries_min,
            final(self).boundaries_max == old(self).boundaries_max,
            old(self).fmap matches Some(f0) ==> final(self).fmap matches Some(f2) && f2.wf()
                && f2.map.same_geometry(f0.map) && f2.map@ == scans_grid(f0.map, f0.map@, scans@,
                scans@.len() as int, old(self).parameter),
    {
        let taken = self.fmap.take();
        let mut fm: FrequencyMap = match taken {
            Some(f) => f,
            None => {
                proof {
                    assert(false);
                }
                FrequencyMap::new(0, 0, 1, 0, 0)
            },
        };
        let ghost f0map = fm.map;
        let ghost g0 = fm.map@;
        let n = scans.len();
        let mut i: usize = 0;
        while i < n
            invariant
                self.parameter.wf(),
                self.parameter == old(self).parameter,
                self.boundaries_min == old(self).boundaries_min,
                self.boundaries_max == old(self).boundaries_max,
                forall|k: int| 0 <= k < scans@.len() ==> (#[trigger] scans@[k]).wf(),
                i <= n,
                n == scans@.len(),
                fm.wf(),
                fm.map.same_geometry(f0map),
                f0map.wf(),
                fm.map@ == scans_grid(f0map, g0, scans@, i as int, old(self).parameter),
            decreases n - i,
        {
            let rl = &scans[i];
            let my_max: i64 = if self.parameter.max_range < rl.laser_params.max_range {
                self.parameter.max_range
            } else {
                rl.laser_params.max_range
            };
            let my_usable: i64 = if self.parameter.max_usable_range < rl.laser_params.max_range {
                self.parameter.max_usable_range
            } else {
                rl.laser_params.max_range
            };
            let robot_pose = self.parameter.offset.compose(&rl.odom_pose);
            let ghost m_pre = fm.map;
            let ghost g_pre = fm.map@;
            fm.integrate_scan(rl, robot_pose, Some(my_max), Some(my_usable), None);
            i = i + 1;
            proof {
                let p = old(self).parameter;
                let scan = scans@[i - 1];
                let lp = spec_compose(spec_compose(p.offset, scan.odom_pose),
                    scan.laser_params.laser_pose);
                let emax = effective_max(scan.laser_params.max_range, Some(scan_my_max(p, scan)));
                let eusable = effective_usable(emax, Some(scan_my_usable(p, scan)));
                crate::frequencymap::lemma_scan_grid_geometry(m_pre, f0map, g_pre, lp,
                    scan.laser_params.beam_rots@, scan.ranges@, scan.ranges@.len() as int, emax,
                    eusable, 1i64);
                assert(fm.map@ == scans_grid(f0map, g0, scans@, i as int, old(self).parameter));
            }
        }
        self.fmap = Some(fm);
    }
}

} // verus!
