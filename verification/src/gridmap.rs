//! A fixed-size 2D raster of cells with world/grid coordinate conversion.
//!
//! The raster is a row-major flat buffer of `width * height` cells.  A
//! world coordinate (integer subunits) maps to the cell containing it by
//! flooring division with the resolution (subunits per cell); a grid
//! coordinate maps back to the world coordinate of its cell center.
//! Every access is bounds-checked: out-of-range coordinates read as
//! `None` and write nothing.

use vstd::prelude::*;

use crate::pose::{absi, POSE_LIMIT};

verus! {

/// Largest accepted grid dimension, in cells per axis.
pub const GRID_DIM_LIMIT: usize = 10_000_000;

/// Largest accepted resolution, in world subunits per cell.
pub const RES_LIMIT: i64 = 1_000_000_000;

/// The grid cell containing world coordinate `w` on one axis: flooring
/// division of the offset-relative coordinate by the resolution.
pub open spec fn w2g(w: int, o: int, res: int) -> int {
    (w - o) / res
}

/// The world coordinate of the center of grid cell `g` on one axis.
pub open spec fn g2w(g: int, o: int, res: int) -> int {
    o + g * res + res / 2
}

/// A fixed-size raster of `width * height` cells of type `T`, with the
/// world-space geometry needed to address it.
pub struct GridMap<T> {
    resolution: i64,
    offset_x: i64,
    offset_y: i64,
    width: usize,
    height: usize,
    grid: Vec<T>,
}

impl<T> View for GridMap<T> {
    type V = Seq<T>;

    closed spec fn view(&self) -> Seq<T> {
        self.grid@
    }
}

impl<T: Copy> GridMap<T> {
    /// World subunits per cell.
    pub closed spec fn spec_resolution(self) -> int {
        self.resolution as int
    }

    /// World x coordinate of the corner of cell `(0, 0)`.
    pub closed spec fn spec_offset_x(self) -> int {
        self.offset_x as int
    }

    /// World y coordinate of the corner of cell `(0, 0)`.
    pub closed spec fn spec_offset_y(self) -> int {
        self.offset_y as int
    }

    /// Cells per row.
    pub closed spec fn spec_width(self) -> int {
        self.width as int
    }

    /// Number of rows.
    pub closed spec fn spec_height(self) -> int {
        self.height as int
    }

    /// The buffer length always equals `width * height`, the resolution is
    /// positive, and the geometry is within the bounds the fixed-point
    /// arithmetic supports.
    pub open spec fn wf(self) -> bool {
        &&& self@.len() == self.spec_width() * self.spec_height()
        &&& self@.len() <= usize::MAX
        &&& 1 <= self.spec_resolution() <= RES_LIMIT
        &&& absi(self.spec_offset_x()) <= POSE_LIMIT as int
        &&& absi(self.spec_offset_y()) <= POSE_LIMIT as int
        &&& self.spec_width() <= GRID_DIM_LIMIT
        &&& self.spec_height() <= GRID_DIM_LIMIT
    }

    /// Whether `(x, y)` addresses a cell of the grid.
    pub open spec fn spec_is_inside(self, x: int, y: int) -> bool {
        0 <= x < self.spec_width() && 0 <= y < self.spec_height()
    }

    /// The buffer index of cell `(x, y)`: row-major.
    pub open spec fn cell_index(self, x: int, y: int) -> int {
        y * self.spec_width() + x
    }

    /// The content of cell `(x, y)`.
    pub open spec fn spec_cell(self, x: int, y: int) -> T {
        self@[self.cell_index(x, y)]
    }

    /// The two grids address the same world region with the same raster:
    /// equal size, resolution, and offset.
    pub open spec fn same_geometry(self, other: GridMap<T>) -> bool {
        &&& self.spec_width() == other.spec_width()
        &&& self.spec_height() == other.spec_height()
        &&& self.spec_resolution() == other.spec_resolution()
        &&& self.spec_offset_x() == other.spec_offset_x()
        &&& self.spec_offset_y() == other.spec_offset_y()
    }

    /// Builds a grid over an existing row-major buffer of
    /// `width * height` cells.
    pub fn from_cells(
        width: usize,
        height: usize,
        resolution: i64,
        offset_x: i64,
        offset_y: i64,
        cells: Vec<T>,
    ) -> (r: GridMap<T>)
        requires
            width <= GRID_DIM_LIMIT,
            height <= GRID_DIM_LIMIT,
            1 <= resolution <= RES_LIMIT,
            absi(offset_x as int) <= POSE_LIMIT as int,
            absi(offset_y as int) <= POSE_LIMIT as int,
            width * height <= usize::MAX,
            cells@.len() == width * height,
        ensures
            r.wf(),
            r.spec_width() == width,
            r.spec_height() == height,
            r.spec_resolution() == resolution,
            r.spec_offset_x() == offset_x,
            r.spec_offset_y() == offset_y,
            r@ == cells@,
    {
        GridMap { resolution, offset_x, offset_y, width, height, grid: cells }
    }

    /// Allocates a `width * height` grid with every cell set to
    /// `unknown_cell`.
    pub fn new(
        width: usize,
        height: usize,
        resolution: i64,
        offset_x: i64,
        offset_y: i64,
        unknown_cell: T,
    ) -> (r: GridMap<T>)
        requires
            width <= GRID_DIM_LIMIT,
            height <= GRID_DIM_LIMIT,
            width * height <= usize::MAX,
            1 <= resolution <= RES_LIMIT,
            absi(offset_x as int) <= POSE_LIMIT as int,
            absi(offset_y as int) <= POSE_LIMIT as int,
        ensures
            r.wf(),
            r.spec_width() == width,
            r.spec_height() == height,
            r.spec_resolution() == resolution,
            r.spec_offset_x() == offset_x,
            r.spec_offset_y() == offset_y,
            r@ == Seq::new((width * height) as nat, |i: int| unknown_cell),
    {
        let n: usize = width * height;
        let mut grid: Vec<T> = Vec::new();
        let mut i: usize = 0;
        while i < n
            invariant
                i <= n,
                grid@.len() == i,
                grid@ =~= Seq::new(i as nat, |k: int| unknown_cell),
            decreases n - i,
        {
            grid.push(unknown_cell);
            i = i + 1;
        }
        let r = GridMap { resolution, offset_x, offset_y, width, height, grid };
        proof {
            assert(r@ =~= Seq::new((width * height) as nat, |i: int| unknown_cell));
        }
        r
    }

    /// Cells per row.
    pub fn width(&self) -> (r: usize)
        ensures
            r == self.spec_width(),
    {
        self.width
    }

    /// Number of rows.
    pub fn height(&self) -> (r: usize)
        ensures
            r == self.spec_height(),
    {
        self.height
    }

    /// World subunits per cell.
    pub fn resolution(&self) -> (r: i64)
        ensures
            r == self.spec_resolution(),
    {
        self.resolution
    }

    /// World x coordinate of the corner of cell `(0, 0)`.
    pub fn offset_x(&self) -> (r: i64)
        ensures
            r == self.spec_offset_x(),
    {
        self.offset_x
    }

    /// World y coordinate of the corner of cell `(0, 0)`.
    pub fn offset_y(&self) -> (r: i64)
        ensures
            r == self.spec_offset_y(),
    {
        self.offset_y
    }

    /// The flat row-major buffer of cells.
    pub fn cells(&self) -> (r: &Vec<T>)
        ensures
            r@ == self@,
    {
        &self.grid
    }

    /// Whether `(x, y)` addresses a cell of the grid.
    pub fn is_inside(&self, x: i64, y: i64) -> (r: bool)
        requires
            self.wf(),
        ensures
            r == self.spec_is_inside(x as int, y as int),
    {
        x >= 0 && y >= 0 && x < (self.width as i64) && y < (self.height as i64)
    }

    /// The buffer index of an in-range cell.
    fn index_of(&self, x: i64, y: i64) -> (r: usize)
        requires
            self.wf(),
            self.spec_is_inside(x as int, y as int),
        ensures
            r == self.cell_index(x as int, y as int),
            r < self@.len(),
    {
        proof {
            assert((y as int) * self.spec_width() + (x as int) < self.spec_height()
                * self.spec_width()) by (nonlinear_arith)
                requires
                    0 <= (x as int) && (x as int) < self.spec_width(),
                    0 <= (y as int) && (y as int) < self.spec_height(),
            ;
            assert(self.spec_height() * self.spec_width() == self.spec_width()
                * self.spec_height()) by (nonlinear_arith);
            assert(0 <= (y as int) * self.spec_width()) by (nonlinear_arith)
                requires
                    0 <= y as int,
                    0 <= self.spec_width(),
            ;
        }
        (y as usize) * self.width + (x as usize)
    }

    /// The content of cell `(x, y)`, or `None` when `(x, y)` is outside
    /// the grid.  Never panics.
    pub fn cell(&self, x: i64, y: i64) -> (r: Option<&T>)
        requires
            self.wf(),
        ensures
            match r {
                Some(c) => self.spec_is_inside(x as int, y as int) && *c == self.spec_cell(
                    x as int,
                    y as int,
                ),
                None => !self.spec_is_inside(x as int, y as int),
            },
    {
        if !self.is_inside(x, y) {
            None
        } else {
            let i = self.index_of(x, y);
            Some(&self.grid[i])
        }
    }

    /// Replaces the content of cell `(x, y)`; returns whether `(x, y)` was
    /// inside the grid (out-of-range writes change nothing).  Never
    /// panics.
    pub fn set_cell(&mut self, x: i64, y: i64, value: T) -> (updated: bool)
        requires
            old(self).wf(),
        ensures
            final(self).wf(),
            updated == old(self).spec_is_inside(x as int, y as int),
            final(self).spec_width() == old(self).spec_width(),
            final(self).spec_height() == old(self).spec_height(),
            final(self).spec_resolution() == old(self).spec_resolution(),
            final(self).spec_offset_x() == old(self).spec_offset_x(),
            final(self).spec_offset_y() == old(self).spec_offset_y(),
            updated ==> final(self)@ == old(self)@.update(
                old(self).cell_index(x as int, y as int),
                value,
            ),
            !updated ==> final(self)@ == old(self)@,
    {
        if !self.is_inside(x, y) {
            false
        } else {
            let i = self.index_of(x, y);
            self.grid.set(i, value);
            true
        }
    }

    /// World grid coordinate of the cell containing the world point
    /// `(wx, wy)`.
    pub fn world2map(&self, wx: i64, wy: i64) -> (r: (i64, i64))
        requires
            self.wf(),
            absi(wx as int) <= POSE_LIMIT as int,
            absi(wy as int) <= POSE_LIMIT as int,
        ensures
            r.0 == w2g(wx as int, self.spec_offset_x(), self.spec_resolution()),
            r.1 == w2g(wy as int, self.spec_offset_y(), self.spec_resolution()),
            absi(r.0 as int) <= 2 * (POSE_LIMIT as int),
            absi(r.1 as int) <= 2 * (POSE_LIMIT as int),
    {
        let gx = floor_div(wx - self.offset_x, self.resolution);
        let gy = floor_div(wy - self.offset_y, self.resolution);
        (gx, gy)
    }

    /// World coordinate of the center of grid cell `(gx, gy)`.
    pub fn map2world(&self, gx: i64, gy: i64) -> (r: (i64, i64))
        requires
            self.wf(),
            absi(gx as int) <= GRID_DIM_LIMIT,
            absi(gy as int) <= GRID_DIM_LIMIT,
        ensures
            r.0 == g2w(gx as int, self.spec_offset_x(), self.spec_resolution()),
            r.1 == g2w(gy as int, self.spec_offset_y(), self.spec_resolution()),
    {
        let half: i64 = ((self.resolution as u64) / 2) as i64;
        proof {
            assert((gx as int) * self.spec_resolution() <= GRID_DIM_LIMIT * (RES_LIMIT as int)
                && (gx as int) * self.spec_resolution() >= -(GRID_DIM_LIMIT * (
            RES_LIMIT as int))) by (nonlinear_arith)
                requires
                    -(GRID_DIM_LIMIT as int) <= gx as int <= GRID_DIM_LIMIT as int,
                    1 <= self.spec_resolution() <= RES_LIMIT as int,
            ;
            assert((gy as int) * self.spec_resolution() <= GRID_DIM_LIMIT * (RES_LIMIT as int)
                && (gy as int) * self.spec_resolution() >= -(GRID_DIM_LIMIT * (
            RES_LIMIT as int))) by (nonlinear_arith)
                requires
                    -(GRID_DIM_LIMIT as int) <= gy as int <= GRID_DIM_LIMIT as int,
                    1 <= self.spec_resolution() <= RES_LIMIT as int,
            ;
        }
        let px: i128 = (self.offset_x as i128) + (gx as i128) * (self.resolution as i128) + (
        half as i128);
        let py: i128 = (self.offset_y as i128) + (gy as i128) * (self.resolution as i128) + (
        half as i128);
        (px as i64, py as i64)
    }

    /// Mapping a world point to its grid cell and back to that cell's
    /// center moves it by at most one resolution unit on each axis.
    pub proof fn lemma_world_roundtrip(self, wx: int, wy: int)
        requires
            self.wf(),
        ensures
            absi(g2w(w2g(wx, self.spec_offset_x(), self.spec_resolution()), self.spec_offset_x(),
                self.spec_resolution()) - wx) <= self.spec_resolution(),
            absi(g2w(w2g(wy, self.spec_offset_y(), self.spec_resolution()), self.spec_offset_y(),
                self.spec_resolution()) - wy) <= self.spec_resolution(),
    {
        lemma_axis_roundtrip(wx, self.spec_offset_x(), self.spec_resolution());
        lemma_axis_roundtrip(wy, self.spec_offset_y(), self.spec_resolution());
    }
}

/// The row-major index of an in-range cell addresses the buffer.
pub proof fn lemma_cell_index_bounds<T: Copy>(m: GridMap<T>, x: int, y: int)
    requires
        m.wf(),
        m.spec_is_inside(x, y),
    ensures
        0 <= m.cell_index(x, y) < m@.len(),
{
    assert(y * m.spec_width() + x < m.spec_height() * m.spec_width()) by (nonlinear_arith)
        requires
            0 <= x && x < m.spec_width(),
            0 <= y && y < m.spec_height(),
    ;
    assert(m.spec_height() * m.spec_width() == m.spec_width() * m.spec_height())
        by (nonlinear_arith);
    assert(0 <= y * m.spec_width()) by (nonlinear_arith)
        requires
            0 <= y,
            0 <= m.spec_width(),
    ;
}

/// Distinct in-range cells have distinct row-major indices.
pub proof fn lemma_cell_index_injective<T: Copy>(m: GridMap<T>, x1: int, y1: int, x2: int, y2: int)
    requires
        m.wf(),
        m.spec_is_inside(x1, y1),
        m.spec_is_inside(x2, y2),
        m.cell_index(x1, y1) == m.cell_index(x2, y2),
    ensures
        x1 == x2 && y1 == y2,
{
    let w = m.spec_width();
    let i = m.cell_index(x1, y1);
    vstd::arithmetic::div_mod::lemma_fundamental_div_mod_converse_div(i, w, y1, x1);
    vstd::arithmetic::div_mod::lemma_fundamental_div_mod_converse_div(i, w, y2, x2);
    vstd::arithmetic::div_mod::lemma_fundamental_div_mod_converse_mod(i, w, y1, x1);
    vstd::arithmetic::div_mod::lemma_fundamental_div_mod_converse_mod(i, w, y2, x2);
}

/// On one axis, the center of the cell containing `w` lies within one
/// resolution unit of `w`.
pub proof fn lemma_axis_roundtrip(w: int, o: int, res: int)
    requires
        res >= 1,
    ensures
        absi(g2w(w2g(w, o, res), o, res) - w) <= res,
{
    let d = w - o;
    let q = d / res;
    vstd::arithmetic::div_mod::lemma_fundamental_div_mod(d, res);
    vstd::arithmetic::div_mod::lemma_mod_bound(d, res);
    vstd::arithmetic::div_mod::lemma_fundamental_div_mod(res, 2);
    vstd::arithmetic::div_mod::lemma_mod_bound(res, 2);
    assert(q * res == res * q) by (nonlinear_arith);
    assert(g2w(q, o, res) - w == res / 2 - d % res);
}

/// Flooring division: the unique `q` with `q * d <= n < (q + 1) * d`.
pub fn floor_div(n: i64, d: i64) -> (r: i64)
    requires
        1 <= d,
    ensures
        r == n as int / d as int,
        absi(r as int) <= absi(n as int),
{
    proof {
        lemma_floor_div_bounds(n as int, d as int);
    }
    match n.checked_div_euclid(d) {
        Some(q) => q,
        None => {
            proof {
                assert(false);
            }
            0
        },
    }
}

/// For a positive divisor the flooring quotient never grows in magnitude.
pub proof fn lemma_floor_div_bounds(n: int, d: int)
    requires
        d >= 1,
    ensures
        absi(n / d) <= absi(n),
        n >= 0 ==> 0 <= n / d <= n,
        n < 0 ==> n <= n / d <= 0,
{
    if n >= 0 {
        vstd::arithmetic::div_mod::lemma_div_is_ordered_by_denominator(n, 1, d);
        vstd::arithmetic::div_mod::lemma_div_basics(n);
        vstd::arithmetic::div_mod::lemma_div_pos_is_pos(n, d);
    } else {
        let q = n / d;
        vstd::arithmetic::div_mod::lemma_fundamental_div_mod(n, d);
        vstd::arithmetic::div_mod::lemma_mod_bound(n, d);
        assert(q * d <= n) by (nonlinear_arith)
            requires
                n == d * q + n % d,
                n % d >= 0,
        ;
        assert(q <= 0) by (nonlinear_arith)
            requires
                q * d <= n,
                n < 0,
                d >= 1,
        ;
        if q == 0 {
            assert(n == n % d);
            assert(false);
        }
        assert(n <= q) by (nonlinear_arith)
            requires
                n == d * q + n % d,
                0 <= n % d < d,
                q <= -1,
                d >= 1,
        ;
    }
}

} // verus!
