//! Running world-space bounding box of a scan set.
//!
//! For each scan, the box is widened to cover the transformed sensor
//! position and every valid beam endpoint, computed with the same beam
//! geometry the integration uses, clipped to the usable range.

use vstd::prelude::*;

use crate::bresenham::maxi;
use crate::frequencymap::{beam_end_x, beam_end_y, effective_max};
use crate::pose::{absi, spec_compose, Point, Pose, Rot, COORD_LIMIT, POSE_LIMIT};
use crate::robot_data::RobotLaser;

verus! {

/// The smaller of two integers.
pub open spec fn mini(a: int, b: int) -> int {
    if a <= b {
        a
    } else {
        b
    }
}

/// A running bounding box: component-wise minimum and maximum.
pub ghost struct BBox {
    pub min_x: int,
    pub min_y: int,
    pub max_x: int,
    pub max_y: int,
}

impl BBox {
    /// The box widened to cover the point `(x, y)`.
    pub open spec fn cover(self, x: int, y: int) -> BBox {
        BBox {
            min_x: mini(self.min_x, x),
            min_y: mini(self.min_y, y),
            max_x: maxi(self.max_x, x),
            max_y: maxi(self.max_y, y),
        }
    }
}

/// The endpoint of one beam as the bounds estimation sees it: `None` for
/// a reading at or above the effective maximum range, else the world
/// point of the reading clipped to the usable range.
pub open spec fn bounds_beam_point(
    tp: Pose,
    rot: Rot,
    range: i64,
    emax: int,
    usable: Option<i64>,
) -> Option<(int, int)> {
    if range >= emax {
        None
    } else {
        let rr = match usable {
            Some(u) => if range < u {
                range as int
            } else {
                u as int
            },
            None => range as int,
        };
        Some((beam_end_x(tp, rot, rr), beam_end_y(tp, rot, rr)))
    }
}

/// The bounding box after covering the endpoints of the first `n` beams.
pub open spec fn bounds_fold(
    tp: Pose,
    rots: Seq<Rot>,
    ranges: Seq<i64>,
    n: int,
    emax: int,
    usable: Option<i64>,
    cur: BBox,
) -> BBox
    decreases n,
{
    if n <= 0 {
        cur
    } else {
        let prev = bounds_fold(tp, rots, ranges, n - 1, emax, usable, cur);
        match bounds_beam_point(tp, rots[n - 1], ranges[n - 1], emax, usable) {
            None => prev,
            Some(p) => prev.cover(p.0, p.1),
        }
    }
}

/// The bounding box after one whole scan, seen from sensor pose `tp`:
/// first the sensor position itself, then every valid beam endpoint.
pub open spec fn scan_bounds(
    tp: Pose,
    scan: RobotLaser,
    max_range: Option<i64>,
    usable: Option<i64>,
    cur: BBox,
) -> BBox {
    bounds_fold(
        tp,
        scan.laser_params.beam_rots@,
        scan.ranges@,
        scan.ranges@.len() as int,
        effective_max(scan.laser_params.max_range, max_range),
        usable,
        cur.cover(tp.x as int, tp.y as int),
    )
}

/// Widens the running bounding box `(min, max)` to cover the sensor
/// position of `scan` under the world offset, and every valid beam
/// endpoint, clipped to the usable range.
pub fn boundaries(
    min: &mut Point,
    max: &mut Point,
    offset: &Pose,
    scan: &RobotLaser,
    max_range: Option<i64>,
    usable_range: Option<i64>,
)
    requires
        offset.rot_wf(),
        offset.pos_bounded(2 * (COORD_LIMIT as int)),
        scan.wf(),
        match usable_range {
            Some(u) => absi(u as int) <= COORD_LIMIT as int,
            None => true,
        },
    ensures
        ({
            let tp = spec_compose(*offset, spec_compose(scan.odom_pose,
                scan.laser_params.laser_pose));
            let start = BBox {
                min_x: old(min).x as int,
                min_y: old(min).y as int,
                max_x: old(max).x as int,
                max_y: old(max).y as int,
            };
            let end = scan_bounds(tp, *scan, max_range, usable_range, start);
            final(min).x == end.min_x && final(min).y == end.min_y && final(max).x == end.max_x
                && final(max).y == end.max_y
        }),
{
    let lpose = scan.laser_pose();
    let tp = offset.compose(&lpose);
    let ghost tps = spec_compose(*offset, spec_compose(scan.odom_pose,
        scan.laser_params.laser_pose));

    if tp.x < min.x {
        min.x = tp.x;
    }
    if tp.y < min.y {
        min.y = tp.y;
    }
    if tp.x > max.x {
        max.x = tp.x;
    }
    if tp.y > max.y {
        max.y = tp.y;
    }

    let my_max: i64 = match max_range {
        Some(m) => if m < scan.laser_params.max_range {
            m
        } else {
            scan.laser_params.max_range
        },
        None => scan.laser_params.max_range,
    };
    let ghost emax = effective_max(scan.laser_params.max_range, max_range);
    let ghost seeded = BBox {
        min_x: min.x as int,
        min_y: min.y as int,
        max_x: max.x as int,
        max_y: max.y as int,
    };
    let ghost rots = scan.laser_params.beam_rots@;
    let ghost all_ranges = scan.ranges@;

    let n = scan.ranges.len();
    let mut i: usize = 0;
    while i < n
        invariant
            scan.wf(),
            i <= n,
            n == all_ranges.len(),
            rots == scan.laser_params.beam_rots@,
            all_ranges == scan.ranges@,
            tp == tps,
            tp.rot_wf(),
            tp.pos_bounded(8 * (COORD_LIMIT as int)),
            my_max == emax,
            match usable_range {
                Some(u) => absi(u as int) <= COORD_LIMIT as int,
                None => true,
            },
            ({
                let cur = BBox {
                    min_x: min.x as int,
                    min_y: min.y as int,
                    max_x: max.x as int,
                    max_y: max.y as int,
                };
                cur == bounds_fold(tps, rots, all_ranges, i as int, emax, usable_range, seeded)
            }),
        decreases n - i,
    {
        let r: i64 = scan.ranges[i];
        if r < my_max {
            let rr: i64 = match usable_range {
                Some(u) => if r < u {
                    r
                } else {
                    u
                },
                None => r,
            };
            let rot = scan.laser_params.beam_rots[i];
            let biso = Pose { x: 0, y: 0, c: rot.c, s: rot.s };
            let bpose = tp.compose(&biso);
            let p = bpose.apply(rr, 0);
            proof {
                assert(bpose.x == tp.x && bpose.y == tp.y);
                assert(bpose.c == crate::frequencymap::beam_rot_c(tps, rots[i as int]));
                assert(bpose.s == crate::frequencymap::beam_rot_s(tps, rots[i as int]));
                assert(bpose.s * 0 == 0);
                assert(p.0 == beam_end_x(tps, rots[i as int], rr as int));
                assert(p.1 == beam_end_y(tps, rots[i as int], rr as int));
            }
            if p.0 < min.x {
                min.x = p.0;
            }
            if p.1 < min.y {
                min.y = p.1;
            }
            if p.0 > max.x {
                max.x = p.0;
            }
            if p.1 > max.y {
                max.y = p.1;
            }
        }
        i = i + 1;
    }
}

} // verus!
