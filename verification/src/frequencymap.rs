//! The hit/miss accumulator and its scan integration.
//!
//! A [`FrequencyMap`] counts, per grid cell, how many beams ended there
//! (`hits`) and how many beams passed through it (`misses`).  Integrating
//! a scan traces every valid beam from the sensor cell to its endpoint
//! cell with the rasterizer: each traversed cell, endpoint included,
//! collects a miss; the endpoint additionally collects a hit unless the
//! beam was clipped to the usable range.  Counts saturate at `i64::MAX`
//! instead of wrapping.
//!
//! The whole integration is pinned down by [`scan_grid`]: the cell buffer
//! after integrating a scan equals the left-to-right fold of its beams
//! over the buffer before.

use vstd::prelude::*;

use crate::bresenham::{bresenham, line};
use crate::gridmap::{w2g, GridMap};
use crate::occupancy::{occupancy_of, OccupancyMap};
use crate::pose::{absi, spec_compose, tdiv, Pose, Rot, COORD_LIMIT, POSE_LIMIT, TRIG_ONE};
use crate::robot_data::RobotLaser;

verus! {

/// One cell of the accumulator: how many beams ended here and how many
/// passed through.
#[derive(Clone, Copy, Debug, PartialEq, Eq, Structural)]
pub struct FrequencyMapCell {
    pub hits: i64,
    pub misses: i64,
}

/// Addition that sticks at `i64::MAX` instead of overflowing.
pub open spec fn sat_add64(a: i64, b: i64) -> i64 {
    if a + b > i64::MAX {
        i64::MAX
    } else {
        (a + b) as i64
    }
}

/// A cell after one more beam passed through it.
pub open spec fn cell_with_miss(c: FrequencyMapCell, gain: i64) -> FrequencyMapCell {
    FrequencyMapCell { hits: c.hits, misses: sat_add64(c.misses, gain) }
}

/// A cell after one more beam ended in it.
pub open spec fn cell_with_hit(c: FrequencyMapCell, gain: i64) -> FrequencyMapCell {
    FrequencyMapCell { hits: sat_add64(c.hits, gain), misses: c.misses }
}

/// The buffer after recording a miss at `(x, y)`: unchanged when `(x, y)`
/// lies outside the grid `m` describes.
pub open spec fn miss_update(
    m: GridMap<FrequencyMapCell>,
    grid: Seq<FrequencyMapCell>,
    x: int,
    y: int,
    gain: i64,
) -> Seq<FrequencyMapCell> {
    if m.spec_is_inside(x, y) {
        grid.update(m.cell_index(x, y), cell_with_miss(grid[m.cell_index(x, y)], gain))
    } else {
        grid
    }
}

/// The buffer after recording a hit at `(x, y)`: unchanged when `(x, y)`
/// lies outside the grid `m` describes.
pub open spec fn hit_update(
    m: GridMap<FrequencyMapCell>,
    grid: Seq<FrequencyMapCell>,
    x: int,
    y: int,
    gain: i64,
) -> Seq<FrequencyMapCell> {
    if m.spec_is_inside(x, y) {
        grid.update(m.cell_index(x, y), cell_with_hit(grid[m.cell_index(x, y)], gain))
    } else {
        grid
    }
}

/// The buffer after recording a miss in every cell of `cells`, in order.
pub open spec fn misses_along(
    m: GridMap<FrequencyMapCell>,
    grid: Seq<FrequencyMapCell>,
    cells: Seq<(int, int)>,
    gain: i64,
) -> Seq<FrequencyMapCell>
    decreases cells.len(),
{
    if cells.len() == 0 {
        grid
    } else {
        misses_along(m, miss_update(m, grid, cells[0].0, cells[0].1, gain), cells.drop_first(),
            gain)
    }
}

/// The cosine of a sensor pose composed with a beam rotation.
pub open spec fn beam_rot_c(lp: Pose, rot: Rot) -> int {
    tdiv(lp.c * rot.c - lp.s * rot.s, TRIG_ONE as int)
}

/// The sine of a sensor pose composed with a beam rotation.
pub open spec fn beam_rot_s(lp: Pose, rot: Rot) -> int {
    tdiv(lp.s * rot.c + lp.c * rot.s, TRIG_ONE as int)
}

/// The world x coordinate where a beam of (clipped) reading `rr`, shot
/// from sensor pose `lp` in direction `rot`, ends.
pub open spec fn beam_end_x(lp: Pose, rot: Rot, rr: int) -> int {
    lp.x + tdiv(beam_rot_c(lp, rot) * rr, TRIG_ONE as int)
}

/// The world y coordinate of the beam endpoint.
pub open spec fn beam_end_y(lp: Pose, rot: Rot, rr: int) -> int {
    lp.y + tdiv(beam_rot_s(lp, rot) * rr, TRIG_ONE as int)
}

/// The range at or above which a beam is discarded entirely: the
/// sensor's own maximum, optionally lowered by a configured maximum.
pub open spec fn effective_max(laser_max: i64, max_range: Option<i64>) -> int {
    match max_range {
        None => laser_max as int,
        Some(m) => if m < laser_max {
            m as int
        } else {
            laser_max as int
        },
    }
}

/// The range beyond which a reading is clipped and stops counting as a
/// hit: the configured usable range, never above the effective maximum.
pub open spec fn effective_usable(emax: int, usable: Option<i64>) -> int {
    match usable {
        None => emax,
        Some(u) => if u < emax {
            u as int
        } else {
            emax
        },
    }
}

/// The configured integration gain, 1 when absent.
pub open spec fn spec_gain(gain: Option<i64>) -> i64 {
    match gain {
        None => 1i64,
        Some(g) => g,
    }
}

/// The buffer after integrating one beam: discarded entirely at or above
/// the effective maximum range; otherwise every rasterized cell from the
/// sensor cell to the endpoint cell collects a miss, and the endpoint
/// cell collects a hit unless the reading was clipped to the usable
/// range.
pub open spec fn beam_grid(
    m: GridMap<FrequencyMapCell>,
    grid: Seq<FrequencyMapCell>,
    lp: Pose,
    rot: Rot,
    range: i64,
    emax: int,
    eusable: int,
    gain: i64,
) -> Seq<FrequencyMapCell> {
    if range >= emax {
        grid
    } else {
        let rr = if range > eusable {
            eusable
        } else {
            range as int
        };
        let sgx = w2g(lp.x as int, m.spec_offset_x(), m.spec_resolution());
        let sgy = w2g(lp.y as int, m.spec_offset_y(), m.spec_resolution());
        let egx = w2g(beam_end_x(lp, rot, rr), m.spec_offset_x(), m.spec_resolution());
        let egy = w2g(beam_end_y(lp, rot, rr), m.spec_offset_y(), m.spec_resolution());
        let g1 = misses_along(m, grid, line(sgx, sgy, egx, egy), gain);
        if range > eusable {
            g1
        } else {
            hit_update(m, g1, egx, egy, gain)
        }
    }
}

/// The buffer after integrating the first `n` beams of a scan, in order.
pub open spec fn scan_grid(
    m: GridMap<FrequencyMapCell>,
    grid: Seq<FrequencyMapCell>,
    lp: Pose,
    rots: Seq<Rot>,
    ranges: Seq<i64>,
    n: int,
    emax: int,
    eusable: int,
    gain: i64,
) -> Seq<FrequencyMapCell>
    decreases n,
{
    if n <= 0 {
        grid
    } else {
        beam_grid(m, scan_grid(m, grid, lp, rots, ranges, n - 1, emax, eusable, gain), lp, rots[n
            - 1], ranges[n - 1], emax, eusable, gain)
    }
}

/// [`misses_along`] reads its map argument only for the grid geometry.
pub proof fn lemma_misses_along_geometry(
    m1: GridMap<FrequencyMapCell>,
    m2: GridMap<FrequencyMapCell>,
    grid: Seq<FrequencyMapCell>,
    cells: Seq<(int, int)>,
    gain: i64,
)
    requires
        m1.same_geometry(m2),
    ensures
        misses_along(m1, grid, cells, gain) == misses_along(m2, grid, cells, gain),
    decreases cells.len(),
{
    if cells.len() > 0 {
        lemma_misses_along_geometry(m1, m2, miss_update(m1, grid, cells[0].0, cells[0].1, gain),
            cells.drop_first(), gain);
    }
}

/// [`beam_grid`] reads its map argument only for the grid geometry.
pub proof fn lemma_beam_grid_geometry(
    m1: GridMap<FrequencyMapCell>,
    m2: GridMap<FrequencyMapCell>,
    grid: Seq<FrequencyMapCell>,
    lp: Pose,
    rot: Rot,
    range: i64,
    emax: int,
    eusable: int,
    gain: i64,
)
    requires
        m1.same_geometry(m2),
    ensures
        beam_grid(m1, grid, lp, rot, range, emax, eusable, gain) == beam_grid(m2, grid, lp, rot,
            range, emax, eusable, gain),
{
    if range < emax {
        let rr = if range > eusable {
            eusable
        } else {
            range as int
        };
        let sgx = w2g(lp.x as int, m1.spec_offset_x(), m1.spec_resolution());
        let sgy = w2g(lp.y as int, m1.spec_offset_y(), m1.spec_resolution());
        let egx = w2g(beam_end_x(lp, rot, rr), m1.spec_offset_x(), m1.spec_resolution());
        let egy = w2g(beam_end_y(lp, rot, rr), m1.spec_offset_y(), m1.spec_resolution());
        lemma_misses_along_geometry(m1, m2, grid, line(sgx, sgy, egx, egy), gain);
    }
}

/// [`scan_grid`] reads its map argument only for the grid geometry.
pub proof fn lemma_scan_grid_geometry(
    m1: GridMap<FrequencyMapCell>,
    m2: GridMap<FrequencyMapCell>,
    grid: Seq<FrequencyMapCell>,
    lp: Pose,
    rots: Seq<Rot>,
    ranges: Seq<i64>,
    n: int,
    emax: int,
    eusable: int,
    gain: i64,
)
    requires
        m1.same_geometry(m2),
    ensures
        scan_grid(m1, grid, lp, rots, ranges, n, emax, eusable, gain) == scan_grid(m2, grid, lp,
            rots, ranges, n, emax, eusable, gain),
    decreases n,
{
    if n > 0 {
        lemma_scan_grid_geometry(m1, m2, grid, lp, rots, ranges, n - 1, emax, eusable, gain);
        lemma_beam_grid_geometry(m1, m2, scan_grid(m1, grid, lp, rots, ranges, n - 1, emax,
            eusable, gain), lp, rots[n - 1], ranges[n - 1], emax, eusable, gain);
    }
}

/// How many times the cell `(x, y)` occurs in a cell sequence.
pub open spec fn coord_count(cells: Seq<(int, int)>, x: int, y: int) -> int
    decreases cells.len(),
{
    if cells.len() == 0 {
        0
    } else {
        (if cells[0] == (x, y) {
            1int
        } else {
            0int
        }) + coord_count(cells.drop_first(), x, y)
    }
}

/// Recording misses along a cell sequence adds `gain` misses to a cell
/// once per time the sequence visits it, and never touches its hits.
pub proof fn lemma_misses_along_counts(
    m: GridMap<FrequencyMapCell>,
    grid: Seq<FrequencyMapCell>,
    cells: Seq<(int, int)>,
    gain: i64,
    x: int,
    y: int,
)
    requires
        m.wf(),
        grid.len() == m.spec_width() * m.spec_height(),
        m.spec_is_inside(x, y),
        gain >= 0,
        grid[m.cell_index(x, y)].misses >= 0,
        grid[m.cell_index(x, y)].misses + gain * cells.len() <= i64::MAX,
    ensures
        misses_along(m, grid, cells, gain).len() == grid.len(),
        misses_along(m, grid, cells, gain)[m.cell_index(x, y)].hits == grid[m.cell_index(x,
            y)].hits,
        misses_along(m, grid, cells, gain)[m.cell_index(x, y)].misses == grid[m.cell_index(x,
            y)].misses + gain * coord_count(cells, x, y),
    decreases cells.len(),
{
    let idx = m.cell_index(x, y);
    crate::gridmap::lemma_cell_index_bounds(m, x, y);
    if cells.len() == 0 {
        assert(gain * coord_count(cells, x, y) == 0) by (nonlinear_arith)
            requires
                coord_count(cells, x, y) == 0,
        ;
    } else {
        let h = cells[0];
        let rest = cells.drop_first();
        let grid2 = miss_update(m, grid, h.0, h.1, gain);
        assert(gain * cells.len() == gain + gain * rest.len()) by (nonlinear_arith)
            requires
                cells.len() == rest.len() + 1,
        ;
        assert(gain * rest.len() >= 0) by (nonlinear_arith)
            requires
                gain >= 0,
                rest.len() >= 0,
        ;
        if m.spec_is_inside(h.0, h.1) {
            let hidx = m.cell_index(h.0, h.1);
            crate::gridmap::lemma_cell_index_bounds(m, h.0, h.1);
            if h.0 == x && h.1 == y {
                assert(grid2[idx].misses == grid[idx].misses + gain);
                lemma_misses_along_counts(m, grid2, rest, gain, x, y);
                assert(gain * coord_count(cells, x, y) == gain + gain * coord_count(rest, x, y))
                    by (nonlinear_arith)
                    requires
                        coord_count(cells, x, y) == 1 + coord_count(rest, x, y),
                ;
            } else {
                if hidx == idx {
                    crate::gridmap::lemma_cell_index_injective(m, h.0, h.1, x, y);
                    assert(false);
                }
                assert(grid2[idx] == grid[idx]);
                lemma_misses_along_counts(m, grid2, rest, gain, x, y);
            }
        } else {
            assert(grid2 == grid);
            lemma_misses_along_counts(m, grid2, rest, gain, x, y);
        }
    }
}

/// Recording misses along a cell sequence never changes any cell's hits.
pub proof fn lemma_misses_along_keeps_hits(
    m: GridMap<FrequencyMapCell>,
    grid: Seq<FrequencyMapCell>,
    cells: Seq<(int, int)>,
    gain: i64,
)
    requires
        m.wf(),
        grid.len() == m.spec_width() * m.spec_height(),
    ensures
        misses_along(m, grid, cells, gain).len() == grid.len(),
        forall|k: int|
            0 <= k < grid.len() ==> (#[trigger] misses_along(m, grid, cells, gain)[k]).hits
                == grid[k].hits,
    decreases cells.len(),
{
    if cells.len() > 0 {
        let h = cells[0];
        let grid2 = miss_update(m, grid, h.0, h.1, gain);
        if m.spec_is_inside(h.0, h.1) {
            crate::gridmap::lemma_cell_index_bounds(m, h.0, h.1);
        }
        lemma_misses_along_keeps_hits(m, grid2, cells.drop_first(), gain);
    }
}

/// Integrating one unclipped beam adds `gain` misses to every cell,
/// endpoint included, once per time the rasterized beam traverses it, and
/// adds `gain` hits to exactly the endpoint cell.
pub proof fn lemma_single_beam(
    m: GridMap<FrequencyMapCell>,
    grid: Seq<FrequencyMapCell>,
    lp: Pose,
    rot: Rot,
    range: i64,
    emax: int,
    eusable: int,
    gain: i64,
    x: int,
    y: int,
)
    requires
        m.wf(),
        grid.len() == m.spec_width() * m.spec_height(),
        range < emax,
        range <= eusable,
        gain >= 0,
        m.spec_is_inside(x, y),
        grid[m.cell_index(x, y)].misses >= 0,
        grid[m.cell_index(x, y)].hits >= 0,
        grid[m.cell_index(x, y)].misses + gain * beam_cells(m, lp, rot, range as int).len()
            <= i64::MAX,
        grid[m.cell_index(x, y)].hits + gain <= i64::MAX,
    ensures
        beam_grid(m, grid, lp, rot, range, emax, eusable, gain).len() == grid.len(),
        beam_grid(m, grid, lp, rot, range, emax, eusable, gain)[m.cell_index(x, y)].misses == grid[
            m.cell_index(x, y)].misses + gain * coord_count(beam_cells(m, lp, rot, range as int),
            x, y),
        beam_grid(m, grid, lp, rot, range, emax, eusable, gain)[m.cell_index(x, y)].hits == grid[
            m.cell_index(x, y)].hits + (
        if (x, y) == beam_end_cell(m, lp, rot, range as int) {
            gain as int
        } else {
            0int
        }),
{
    let idx = m.cell_index(x, y);
    crate::gridmap::lemma_cell_index_bounds(m, x, y);
    let cells = beam_cells(m, lp, rot, range as int);
    let g1 = misses_along(m, grid, cells, gain);
    lemma_misses_along_counts(m, grid, cells, gain, x, y);
    lemma_misses_along_keeps_hits(m, grid, cells, gain);
    let e = beam_end_cell(m, lp, rot, range as int);
    if m.spec_is_inside(e.0, e.1) {
        crate::gridmap::lemma_cell_index_bounds(m, e.0, e.1);
        if e.0 == x && e.1 == y {
        } else {
            if m.cell_index(e.0, e.1) == idx {
                crate::gridmap::lemma_cell_index_injective(m, e.0, e.1, x, y);
                assert(false);
            }
        }
    }
}

/// The grid cells the rasterized beam of (unclipped) reading `rr`
/// traverses, from the sensor cell to the endpoint cell.
pub open spec fn beam_cells(
    m: GridMap<FrequencyMapCell>,
    lp: Pose,
    rot: Rot,
    rr: int,
) -> Seq<(int, int)> {
    let sgx = w2g(lp.x as int, m.spec_offset_x(), m.spec_resolution());
    let sgy = w2g(lp.y as int, m.spec_offset_y(), m.spec_resolution());
    let e = beam_end_cell(m, lp, rot, rr);
    line(sgx, sgy, e.0, e.1)
}

/// The grid cell in which a beam of (clipped) reading `rr` ends.
pub open spec fn beam_end_cell(
    m: GridMap<FrequencyMapCell>,
    lp: Pose,
    rot: Rot,
    rr: int,
) -> (int, int) {
    (
        w2g(beam_end_x(lp, rot, rr), m.spec_offset_x(), m.spec_resolution()),
        w2g(beam_end_y(lp, rot, rr), m.spec_offset_y(), m.spec_resolution()),
    )
}

/// A beam that is discarded or clipped to the usable range contributes
/// only misses: it leaves every cell's hits unchanged.
pub proof fn lemma_clipped_beam_adds_no_hit(
    m: GridMap<FrequencyMapCell>,
    grid: Seq<FrequencyMapCell>,
    lp: Pose,
    rot: Rot,
    range: i64,
    emax: int,
    eusable: int,
    gain: i64,
)
    requires
        m.wf(),
        grid.len() == m.spec_width() * m.spec_height(),
        range >= emax || range > eusable,
    ensures
        beam_grid(m, grid, lp, rot, range, emax, eusable, gain).len() == grid.len(),
        forall|k: int|
            0 <= k < grid.len() ==> (#[trigger] beam_grid(m, grid, lp, rot, range, emax, eusable,
                gain)[k]).hits == grid[k].hits,
{
    if range < emax {
        let rr = if range > eusable {
            eusable
        } else {
            range as int
        };
        let sgx = w2g(lp.x as int, m.spec_offset_x(), m.spec_resolution());
        let sgy = w2g(lp.y as int, m.spec_offset_y(), m.spec_resolution());
        let egx = w2g(beam_end_x(lp, rot, rr), m.spec_offset_x(), m.spec_resolution());
        let egy = w2g(beam_end_y(lp, rot, rr), m.spec_offset_y(), m.spec_resolution());
        lemma_misses_along_keeps_hits(m, grid, line(sgx, sgy, egx, egy), gain);
    }
}

/// A scan whose every reading is discarded or clipped to the usable range
/// contributes only misses: integrating it leaves every cell's hits
/// unchanged.
pub proof fn lemma_clipped_scan_adds_no_hits(
    m: GridMap<FrequencyMapCell>,
    grid: Seq<FrequencyMapCell>,
    lp: Pose,
    rots: Seq<Rot>,
    ranges: Seq<i64>,
    n: int,
    emax: int,
    eusable: int,
    gain: i64,
)
    requires
        m.wf(),
        grid.len() == m.spec_width() * m.spec_height(),
        forall|i: int| 0 <= i < n ==> #[trigger] ranges[i] >= emax || ranges[i] > eusable,
    ensures
        scan_grid(m, grid, lp, rots, ranges, n, emax, eusable, gain).len() == grid.len(),
        forall|k: int|
            0 <= k < grid.len() ==> (#[trigger] scan_grid(m, grid, lp, rots, ranges, n, emax,
                eusable, gain)[k]).hits == grid[k].hits,
    decreases n,
{
    if n > 0 {
        lemma_clipped_scan_adds_no_hits(m, grid, lp, rots, ranges, n - 1, emax, eusable, gain);
        lemma_clipped_beam_adds_no_hit(m, scan_grid(m, grid, lp, rots, ranges, n - 1, emax,
            eusable, gain), lp, rots[n - 1], ranges[n - 1], emax, eusable, gain);
    }
}

/// A grid of hit/miss counters.
pub struct FrequencyMap {
    pub map: GridMap<FrequencyMapCell>,
}

impl FrequencyMap {
    /// The grid is well-formed and every count is nonnegative.
    pub open spec fn wf(self) -> bool {
        &&& self.map.wf()
        &&& forall|i: int|
            0 <= i < self.map@.len() ==> (#[trigger] self.map@[i]).hits >= 0
                && self.map@[i].misses >= 0
    }

    /// Allocates a `width * height` accumulator with all counts zero.
    pub fn new(width: usize, height: usize, resolution: i64, offset_x: i64, offset_y: i64) -> (r:
        FrequencyMap)
        requires
            width <= crate::gridmap::GRID_DIM_LIMIT,
            height <= crate::gridmap::GRID_DIM_LIMIT,
            width * height <= usize::MAX,
            1 <= resolution <= crate::gridmap::RES_LIMIT,
            absi(offset_x as int) <= POSE_LIMIT as int,
            absi(offset_y as int) <= POSE_LIMIT as int,
        ensures
            r.wf(),
            r.map.spec_width() == width,
            r.map.spec_height() == height,
            r.map.spec_resolution() == resolution,
            r.map.spec_offset_x() == offset_x,
            r.map.spec_offset_y() == offset_y,
            forall|i: int|
                0 <= i < r.map@.len() ==> r.map@[i] == (FrequencyMapCell { hits: 0, misses: 0 }),
    {
        let default_cell = FrequencyMapCell { hits: 0, misses: 0 };
        let map = GridMap::new(width, height, resolution, offset_x, offset_y, default_cell);
        FrequencyMap { map }
    }

    /// Records one miss at grid cell `(x, y)`; out-of-grid cells are
    /// silently skipped.
    fn add_miss(&mut self, x: i64, y: i64, gain: i64)
        requires
            old(self).wf(),
            gain >= 0,
        ensures
            final(self).wf(),
            final(self).map.same_geometry(old(self).map),
            final(self).map@ == miss_update(old(self).map, old(self).map@, x as int, y as int,
                gain),
    {
        let cur = self.map.cell(x, y);
        match cur {
            Some(c) => {
                let cc: FrequencyMapCell = *c;
                proof {
                    crate::gridmap::lemma_cell_index_bounds(old(self).map, x as int, y as int);
                    assert(cc == old(self).map@[old(self).map.cell_index(x as int, y as int)]);
                }
                let updated = FrequencyMapCell { hits: cc.hits, misses: sat_add(cc.misses, gain) };
                self.map.set_cell(x, y, updated);
                proof {
                    let gr = old(self).map@;
                    let idx = old(self).map.cell_index(x as int, y as int);
                    assert(self.map@ =~= miss_update(old(self).map, gr, x as int, y as int, gain));
                    assert forall|i: int| 0 <= i < self.map@.len() implies (#[trigger] self.map@[
                    i]).hits >= 0 && self.map@[i].misses >= 0 by {
                        if i != idx {
                            assert(self.map@[i] == gr[i]);
                        } else {
                            assert(self.map@[i] == updated);
                        }
                    }
                }
            },
            None => {
            },
        }
    }

    /// Records one hit at grid cell `(x, y)`; out-of-grid cells are
    /// silently skipped.
    fn add_hit(&mut self, x: i64, y: i64, gain: i64)
        requires
            old(self).wf(),
            gain >= 0,
        ensures
            final(self).wf(),
            final(self).map.same_geometry(old(self).map),
            final(self).map@ == hit_update(old(self).map, old(self).map@, x as int, y as int,
                gain),
    {
        let cur = self.map.cell(x, y);
        match cur {
            Some(c) => {
                let cc: FrequencyMapCell = *c;
                proof {
                    crate::gridmap::lemma_cell_index_bounds(old(self).map, x as int, y as int);
                    assert(cc == old(self).map@[old(self).map.cell_index(x as int, y as int)]);
                }
                let updated = FrequencyMapCell { hits: sat_add(cc.hits, gain), misses: cc.misses };
                self.map.set_cell(x, y, updated);
                proof {
                    let gr = old(self).map@;
                    let idx = old(self).map.cell_index(x as int, y as int);
                    assert(self.map@ =~= hit_update(old(self).map, gr, x as int, y as int, gain));
                    assert forall|i: int| 0 <= i < self.map@.len() implies (#[trigger] self.map@[
                    i]).hits >= 0 && self.map@[i].misses >= 0 by {
                        if i != idx {
                            assert(self.map@[i] == gr[i]);
                        } else {
                            assert(self.map@[i] == updated);
                        }
                    }
                }
            },
            None => {
            },
        }
    }

    /// Integrates one beam: the body of one step of [`scan_grid`]'s fold.
    fn integrate_beam(
        &mut self,
        lp: &Pose,
        rot: Rot,
        range: i64,
        start: (i64, i64),
        my_max: i64,
        my_usable: i64,
        gain_v: i64,
        Ghost(m0): Ghost<GridMap<FrequencyMapCell>>,
    )
        requires
            old(self).wf(),
            old(self).map.same_geometry(m0),
            m0.wf(),
            lp.rot_wf(),
            lp.pos_bounded(6 * (COORD_LIMIT as int)),
            rot.wf(),
            gain_v >= 0,
            my_usable <= my_max,
            absi(my_max as int) <= COORD_LIMIT as int,
            absi(my_usable as int) <= COORD_LIMIT as int,
            absi(range as int) <= COORD_LIMIT as int,
            start.0 == w2g(lp.x as int, m0.spec_offset_x(), m0.spec_resolution()),
            start.1 == w2g(lp.y as int, m0.spec_offset_y(), m0.spec_resolution()),
            absi(start.0 as int) <= 2 * (POSE_LIMIT as int),
            absi(start.1 as int) <= 2 * (POSE_LIMIT as int),
        ensures
            final(self).wf(),
            final(self).map.same_geometry(m0),
            final(self).map@ == beam_grid(m0, old(self).map@, *lp, rot, range, my_max as int,
                my_usable as int, gain_v),
    {
        if range >= my_max {
            return ;
        }
        let mut rr: i64 = range;
        let mut cropped: bool = false;
        if rr > my_usable {
            rr = my_usable;
            cropped = true;
        }
        let biso = Pose { x: 0, y: 0, c: rot.c, s: rot.s };
        let bpose = lp.compose(&biso);
        let end_world = bpose.apply(rr, 0);
        proof {
            assert(bpose.x == lp.x && bpose.y == lp.y);
            assert(bpose.c == beam_rot_c(*lp, rot));
            assert(bpose.s == beam_rot_s(*lp, rot));
            assert(bpose.s * 0 == 0);
            assert(end_world.0 == beam_end_x(*lp, rot, rr as int));
            assert(end_world.1 == beam_end_y(*lp, rot, rr as int));
        }
        let end = self.map.world2map(end_world.0, end_world.1);
        let ghost cells = line(start.0 as int, start.1 as int, end.0 as int, end.1 as int);
        let ghost g_beam = self.map@;
        let mut line_iter = bresenham(start.0, start.1, end.0, end.1);
        loop
            invariant
                self.wf(),
                self.map.same_geometry(m0),
                m0.wf(),
                gain_v >= 0,
                line_iter.wf(),
                misses_along(m0, self.map@, line_iter.remaining(), gain_v) == misses_along(m0,
                    g_beam, cells, gain_v),
            ensures
                self.wf(),
                self.map.same_geometry(m0),
                self.map@ == misses_along(m0, g_beam, cells, gain_v),
            decreases line_iter.remaining().len(),
        {
            let ghost rem_prev = line_iter.remaining();
            match line_iter.next() {
                Some(p) => {
                    proof {
                        assert(rem_prev.len() > 0);
                        assert((p.0 as int, p.1 as int) == rem_prev[0]);
                    }
                    self.add_miss(p.0, p.1, gain_v);
                },
                None => {
                    proof {
                        assert(rem_prev.len() == 0);
                    }
                    break ;
                },
            }
        }
        if !cropped {
            self.add_hit(end.0, end.1, gain_v);
        }
    }

    /// Integrates one scan taken at `robot_pose` (the robot pose in the
    /// map frame, any world offset already applied).  Every beam reading
    /// at or above the effective maximum range is discarded; every other
    /// beam marks a miss in each cell it traverses, endpoint included,
    /// and a hit at its endpoint unless its reading was clipped to the
    /// usable range.  The resulting buffer is exactly [`scan_grid`] of
    /// the previous one.
    pub fn integrate_scan(
        &mut self,
        laser: &RobotLaser,
        robot_pose: Pose,
        max_range: Option<i64>,
        max_usable_range: Option<i64>,
        gain: Option<i64>,
    )
        requires
            old(self).wf(),
            laser.wf(),
            robot_pose.rot_wf(),
            robot_pose.pos_bounded(4 * (COORD_LIMIT as int)),
            spec_gain(gain) >= 0,
            match max_range {
                Some(m) => absi(m as int) <= COORD_LIMIT as int,
                None => true,
            },
            match max_usable_range {
                Some(u) => absi(u as int) <= COORD_LIMIT as int,
                None => true,
            },
        ensures
            final(self).wf(),
            final(self).map.same_geometry(old(self).map),
            final(self).map@ == scan_grid(
                old(self).map,
                old(self).map@,
                spec_compose(robot_pose, laser.laser_params.laser_pose),
                laser.laser_params.beam_rots@,
                laser.ranges@,
                laser.ranges@.len() as int,
                effective_max(laser.laser_params.max_range, max_range),
                effective_usable(effective_max(laser.laser_params.max_range, max_range),
                    max_usable_range),
                spec_gain(gain),
            ),
    {
        let gain_v: i64 = match gain {
            Some(g) => g,
            None => 1,
        };
        let my_max: i64 = match max_range {
            Some(m) => if m < laser.laser_params.max_range {
                m
            } else {
                laser.laser_params.max_range
            },
            None => laser.laser_params.max_range,
        };
        let my_usable: i64 = match max_usable_range {
            Some(u) => if u < my_max {
                u
            } else {
                my_max
            },
            None => my_max,
        };
        let lp = robot_pose.compose(&laser.laser_params.laser_pose);
        let start = self.map.world2map(lp.x, lp.y);

        let ghost m0 = old(self).map;
        let ghost g0 = old(self).map@;
        let ghost lps = spec_compose(robot_pose, laser.laser_params.laser_pose);
        let ghost rots = laser.laser_params.beam_rots@;
        let ghost all_ranges = laser.ranges@;
        let ghost emax = effective_max(laser.laser_params.max_range, max_range);
        let ghost eusable = effective_usable(emax, max_usable_range);

        proof {
            assert(lp == lps);
            assert(my_max == emax);
            assert(my_usable == eusable);
        }

        let n = laser.ranges.len();
        let mut i: usize = 0;
        while i < n
            invariant
                self.wf(),
                self.map.same_geometry(m0),
                laser.wf(),
                i <= n,
                n == all_ranges.len(),
                rots == laser.laser_params.beam_rots@,
                all_ranges == laser.ranges@,
                lp == lps,
                lp.rot_wf(),
                lp.pos_bounded(6 * (COORD_LIMIT as int)),
                my_max == emax,
                my_usable == eusable,
                absi(my_max as int) <= COORD_LIMIT as int,
                absi(my_usable as int) <= COORD_LIMIT as int,
                my_usable <= my_max,
                gain_v == spec_gain(gain),
                gain_v >= 0,
                m0.wf(),
                start.0 == w2g(lp.x as int, m0.spec_offset_x(), m0.spec_resolution()),
                start.1 == w2g(lp.y as int, m0.spec_offset_y(), m0.spec_resolution()),
                absi(start.0 as int) <= 2 * (POSE_LIMIT as int),
                absi(start.1 as int) <= 2 * (POSE_LIMIT as int),
                self.map@ == scan_grid(m0, g0, lps, rots, all_ranges, i as int, emax, eusable,
                    spec_gain(gain)),
            decreases n - i,
        {
            let ghost g_prev = self.map@;
            let r: i64 = laser.ranges[i];
            let rot: Rot = laser.laser_params.beam_rots[i];
            self.integrate_beam(&lp, rot, r, start, my_max, my_usable, gain_v, Ghost(m0));
            i = i + 1;
            proof {
                assert(self.map@ == beam_grid(m0, g_prev, lps, rots[i - 1], all_ranges[i - 1],
                    emax, eusable, spec_gain(gain)));
                assert(self.map@ == scan_grid(m0, g0, lps, rots, all_ranges, i as int, emax,
                    eusable, spec_gain(gain)));
            }
        }
    }

    /// Resolves the accumulated counts into an occupancy grid of the same
    /// geometry: a cell with recorded misses resolves to the ratio of its
    /// hits to all its observations, a cell without misses to the unknown
    /// sentinel.
    pub fn compute_occupancy_map(&self) -> (r: OccupancyMap)
        requires
            self.wf(),
        ensures
            r.map.wf(),
            r.map.spec_width() == self.map.spec_width(),
            r.map.spec_height() == self.map.spec_height(),
            r.map.spec_resolution() == self.map.spec_resolution(),
            r.map.spec_offset_x() == self.map.spec_offset_x(),
            r.map.spec_offset_y() == self.map.spec_offset_y(),
            r.map@.len() == self.map@.len(),
            forall|i: int|
                0 <= i < self.map@.len() ==> r.map@[i] == occupancy_of(self.map@[i]),
    {
        let src = self.map.cells();
        let n = src.len();
        let mut out: Vec<crate::occupancy::Occupancy> = Vec::new();
        let mut i: usize = 0;
        while i < n
            invariant
                i <= n,
                n == self.map@.len(),
                self.wf(),
                src@ == self.map@,
                out@.len() == i,
                forall|k: int| 0 <= k < i ==> out@[k] == occupancy_of(self.map@[k]),
            decreases n - i,
        {
            let c = src[i];
            let o = if c.misses > 0 {
                crate::occupancy::Occupancy::Known {
                    hits: c.hits,
                    observations: sat_add(c.hits, c.misses),
                }
            } else {
                crate::occupancy::Occupancy::Unknown
            };
            out.push(o);
            i = i + 1;
        }
        let map = GridMap::from_cells(
            self.map.width(),
            self.map.height(),
            self.map.resolution(),
            self.map.offset_x(),
            self.map.offset_y(),
            out,
        );
        OccupancyMap { map }
    }
}

/// Adds two nonnegative counters, sticking at `i64::MAX` instead of
/// overflowing.
fn sat_add(a: i64, b: i64) -> (r: i64)
    requires
        a >= 0,
        b >= 0,
    ensures
        r == sat_add64(a, b),
{
    match a.checked_add(b) {
        Some(v) => v,
        None => i64::MAX,
    }
}

} // verus!
