//! Integer line rasterization.
//!
//! [`bresenham`] produces the ordered sequence of grid cells forming an
//! 8-connected approximation of the segment between two integer
//! coordinates, inclusive of both endpoints.  The dominant axis steps on
//! every iteration; an error accumulator decides when the minor axis
//! steps as well.  [`line`] is the mathematical statement of that walk,
//! and every cell the iterator yields is pinned to it.

use vstd::prelude::*;

use crate::pose::absi;

verus! {

/// Magnitude bound on the coordinates accepted by the rasterizer; keeps
/// every difference and error-accumulator step within `i64`.
pub const RASTER_LIMIT: i64 = 1_152_921_504_606_846_976;

/// The larger of two integers.
pub open spec fn maxi(a: int, b: int) -> int {
    if a >= b {
        a
    } else {
        b
    }
}

/// The walk state of a line rasterization: current and end cell, the
/// absolute deltas of the segment, the step direction of each axis, and
/// the error accumulator.
pub ghost struct LineState {
    pub cx: int,
    pub cy: int,
    pub ex: int,
    pub ey: int,
    pub dx: int,
    pub dy: int,
    pub sx: int,
    pub sy: int,
    pub err: int,
}

/// The initial error accumulator: half the dominant delta, signed toward
/// the minor-axis threshold.
pub open spec fn init_err(dx: int, dy: int) -> int {
    if dx > dy {
        dx / 2
    } else {
        -(dy / 2)
    }
}

impl LineState {
    /// Cells still to walk on the x axis.
    pub open spec fn rx(self) -> int {
        self.sx * (self.ex - self.cx)
    }

    /// Cells still to walk on the y axis.
    pub open spec fn ry(self) -> int {
        self.sy * (self.ey - self.cy)
    }

    /// The walk has arrived.
    pub open spec fn at_end(self) -> bool {
        self.cx == self.ex && self.cy == self.ey
    }

    /// The walk invariant: deltas are the absolute differences still
    /// consistent with the remaining distances, steps are unit, the error
    /// accumulator carries exactly the history of minor-axis steps, and
    /// it stays inside the band that makes the dominant axis step every
    /// iteration and land both axes on the end cell together.
    pub open spec fn wf(self) -> bool {
        &&& self.dx >= 0
        &&& self.dy >= 0
        &&& (self.sx == 1 || self.sx == -1)
        &&& (self.sy == 1 || self.sy == -1)
        &&& 0 <= self.rx() <= self.dx
        &&& 0 <= self.ry() <= self.dy
        &&& self.err == init_err(self.dx, self.dy) + (self.dy - self.ry()) * self.dx - (self.dx
            - self.rx()) * self.dy
        &&& (self.dx > self.dy ==> 0 <= self.err < self.dx)
        &&& (self.dx <= self.dy && self.dy > 0 ==> -self.dy < self.err <= 0)
        &&& (self.dx <= self.dy && self.dy == 0 ==> self.err == 0)
        &&& absi(self.ex) <= RASTER_LIMIT as int
        &&& absi(self.ey) <= RASTER_LIMIT as int
        &&& self.dx <= 2 * (RASTER_LIMIT as int)
        &&& self.dy <= 2 * (RASTER_LIMIT as int)
    }

    /// One step of the walk: the error accumulator decides which axes
    /// advance.
    pub open spec fn step(self) -> LineState {
        let e2 = self.err;
        let err1 = if e2 > -self.dx {
            self.err - self.dy
        } else {
            self.err
        };
        let cx1 = if e2 > -self.dx {
            self.cx + self.sx
        } else {
            self.cx
        };
        let err2 = if e2 < self.dy {
            err1 + self.dx
        } else {
            err1
        };
        let cy1 = if e2 < self.dy {
            self.cy + self.sy
        } else {
            self.cy
        };
        LineState { cx: cx1, cy: cy1, err: err2, ..self }
    }
}

/// The cells the walk visits from a state onward, the current cell first,
/// both endpoints included.
pub open spec fn walk(st: LineState) -> Seq<(int, int)>
    decreases st.rx() + st.ry(),
        when st.wf()
        via walk_dec
{
    if st.at_end() {
        seq![(st.cx, st.cy)]
    } else {
        seq![(st.cx, st.cy)] + walk(st.step())
    }
}

#[via_fn]
proof fn walk_dec(st: LineState) {
    if !st.at_end() {
        lemma_step_wf(st);
    }
}

/// The initial walk state for the segment from `(x1, y1)` to `(x2, y2)`.
pub open spec fn line_start(x1: int, y1: int, x2: int, y2: int) -> LineState {
    LineState {
        cx: x1,
        cy: y1,
        ex: x2,
        ey: y2,
        dx: absi(x2 - x1),
        dy: absi(y2 - y1),
        sx: if x1 < x2 {
            1int
        } else {
            -1int
        },
        sy: if y1 < y2 {
            1int
        } else {
            -1int
        },
        err: init_err(absi(x2 - x1), absi(y2 - y1)),
    }
}

/// The ordered cells of the rasterized segment from `(x1, y1)` to
/// `(x2, y2)`, both endpoints included.
pub open spec fn line(x1: int, y1: int, x2: int, y2: int) -> Seq<(int, int)> {
    walk(line_start(x1, y1, x2, y2))
}

/// The initial walk state satisfies the walk invariant.
pub proof fn lemma_line_start_wf(x1: int, y1: int, x2: int, y2: int)
    requires
        absi(x1) <= RASTER_LIMIT as int,
        absi(y1) <= RASTER_LIMIT as int,
        absi(x2) <= RASTER_LIMIT as int,
        absi(y2) <= RASTER_LIMIT as int,
    ensures
        line_start(x1, y1, x2, y2).wf(),
        !line_start(x1, y1, x2, y2).at_end() || (x1 == x2 && y1 == y2),
        line_start(x1, y1, x2, y2).rx() == line_start(x1, y1, x2, y2).dx,
        line_start(x1, y1, x2, y2).ry() == line_start(x1, y1, x2, y2).dy,
{
    let st = line_start(x1, y1, x2, y2);
    assert(st.rx() == st.dx && st.ry() == st.dy);
    assert((st.dy - st.dy) * st.dx == 0) by (nonlinear_arith);
    assert((st.dx - st.dx) * st.dy == 0) by (nonlinear_arith);
    if st.dx > st.dy {
        vstd::arithmetic::div_mod::lemma_fundamental_div_mod(st.dx, 2);
        vstd::arithmetic::div_mod::lemma_mod_bound(st.dx, 2);
    } else if st.dy > 0 {
        vstd::arithmetic::div_mod::lemma_fundamental_div_mod(st.dy, 2);
        vstd::arithmetic::div_mod::lemma_mod_bound(st.dy, 2);
    }
}

/// One walk step from a state that has not arrived keeps the invariant,
/// leaves the segment constants alone, and strictly shrinks the remaining
/// distance.
pub proof fn lemma_step_wf(st: LineState)
    requires
        st.wf(),
        !st.at_end(),
    ensures
        st.step().wf(),
        st.step().rx() + st.step().ry() < st.rx() + st.ry(),
        st.step().ex == st.ex,
        st.step().ey == st.ey,
        st.step().dx == st.dx,
        st.step().dy == st.dy,
        st.step().sx == st.sx,
        st.step().sy == st.sy,
{
    let e0 = init_err(st.dx, st.dy);
    let rx = st.rx();
    let ry = st.ry();
    let dx = st.dx;
    let dy = st.dy;
    assert(rx > 0 || ry > 0);
    if dx > dy {
        vstd::arithmetic::div_mod::lemma_fundamental_div_mod(dx, 2);
        vstd::arithmetic::div_mod::lemma_mod_bound(dx, 2);
        assert(0 <= e0 < dx);
        // The x axis cannot have arrived early: the error would have sunk
        // below the band.
        if rx == 0 {
            assert(st.err == e0 + (dy - ry) * dx - (dx - 0) * dy);
            assert(st.err == e0 - ry * dx) by (nonlinear_arith)
                requires
                    st.err == e0 + (dy - ry) * dx - (dx - 0) * dy,
            ;
            assert(ry * dx >= dx) by (nonlinear_arith)
                requires
                    ry >= 1,
                    dx >= 0,
            ;
            assert(false);
        }
        // The dominant axis steps: 0 <= err means err > -dx.
        assert(st.err > -dx);
        if st.err < dy {
            // The minor axis steps too; it cannot have arrived early.
            if ry == 0 {
                assert(st.err == e0 + rx * dy) by (nonlinear_arith)
                    requires
                        st.err == e0 + (dy - 0) * dx - (dx - rx) * dy,
                ;
                assert(rx * dy >= dy) by (nonlinear_arith)
                    requires
                        rx >= 1,
                        dy >= 0,
                ;
                assert(false);
            }
            let st2 = st.step();
            assert(st2.cx == st.cx + st.sx && st2.cy == st.cy + st.sy && st2.err == st.err - dy
                + dx);
            assert(st2.rx() == rx - 1) by (nonlinear_arith)
                requires
                    st2.rx() == st.sx * (st.ex - (st.cx + st.sx)),
                    rx == st.sx * (st.ex - st.cx),
                    st.sx == 1 || st.sx == -1,
            ;
            assert(st2.ry() == ry - 1) by (nonlinear_arith)
                requires
                    st2.ry() == st.sy * (st.ey - (st.cy + st.sy)),
                    ry == st.sy * (st.ey - st.cy),
                    st.sy == 1 || st.sy == -1,
            ;
            assert(st2.err == e0 + (dy - st2.ry()) * dx - (dx - st2.rx()) * dy)
                by (nonlinear_arith)
                requires
                    st2.err == st.err - dy + dx,
                    st.err == e0 + (dy - ry) * dx - (dx - rx) * dy,
                    st2.ry() == ry - 1,
                    st2.rx() == rx - 1,
            ;
        } else {
            // Only the dominant axis steps.
            let st2 = st.step();
            assert(st2.cx == st.cx + st.sx && st2.cy == st.cy && st2.err == st.err - dy);
            assert(st2.rx() == rx - 1) by (nonlinear_arith)
                requires
                    st2.rx() == st.sx * (st.ex - (st.cx + st.sx)),
                    rx == st.sx * (st.ex - st.cx),
                    st.sx == 1 || st.sx == -1,
            ;
            assert(st2.ry() == ry);
            assert(st2.err == e0 + (dy - st2.ry()) * dx - (dx - st2.rx()) * dy)
                by (nonlinear_arith)
                requires
                    st2.err == st.err - dy,
                    st.err == e0 + (dy - ry) * dx - (dx - rx) * dy,
                    st2.ry() == ry,
                    st2.rx() == rx - 1,
            ;
        }
    } else {
        // The y axis dominates (or the segment is a single cell, which
        // `at_end` already excluded: dy == 0 forces dx == 0 here).
        if dy == 0 {
            assert(st.err == 0);
            assert(rx == 0 && ry == 0);
            assert(false);
        }
        vstd::arithmetic::div_mod::lemma_fundamental_div_mod(dy, 2);
        vstd::arithmetic::div_mod::lemma_mod_bound(dy, 2);
        assert(-dy < e0 <= 0);
        // The y axis cannot have arrived early.
        if ry == 0 {
            assert(st.err == e0 + rx * dy) by (nonlinear_arith)
                requires
                    st.err == e0 + (dy - 0) * dx - (dx - rx) * dy,
            ;
            assert(rx * dy >= dy) by (nonlinear_arith)
                requires
                    rx >= 1,
                    dy >= 0,
            ;
            assert(false);
        }
        // The minor-axis condition always fires: err <= 0 < dy.
        assert(st.err < dy);
        if st.err > -dx {
            // Both axes step; x cannot have arrived early.
            if rx == 0 {
                assert(st.err == e0 - ry * dx) by (nonlinear_arith)
                    requires
                        st.err == e0 + (dy - ry) * dx - (dx - 0) * dy,
                ;
                assert(ry * dx >= dx) by (nonlinear_arith)
                    requires
                        ry >= 1,
                        dx >= 0,
                ;
                assert(false);
            }
            let st2 = st.step();
            assert(st2.cx == st.cx + st.sx && st2.cy == st.cy + st.sy && st2.err == st.err - dy
                + dx);
            assert(st2.rx() == rx - 1) by (nonlinear_arith)
                requires
                    st2.rx() == st.sx * (st.ex - (st.cx + st.sx)),
                    rx == st.sx * (st.ex - st.cx),
                    st.sx == 1 || st.sx == -1,
            ;
            assert(st2.ry() == ry - 1) by (nonlinear_arith)
                requires
                    st2.ry() == st.sy * (st.ey - (st.cy + st.sy)),
                    ry == st.sy * (st.ey - st.cy),
                    st.sy == 1 || st.sy == -1,
            ;
            assert(st2.err == e0 + (dy - st2.ry()) * dx - (dx - st2.rx()) * dy)
                by (nonlinear_arith)
                requires
                    st2.err == st.err - dy + dx,
                    st.err == e0 + (dy - ry) * dx - (dx - rx) * dy,
                    st2.ry() == ry - 1,
                    st2.rx() == rx - 1,
            ;
        } else {
            // Only the y axis steps.
            let st2 = st.step();
            assert(st2.cx == st.cx && st2.cy == st.cy + st.sy && st2.err == st.err + dx);
            assert(st2.ry() == ry - 1) by (nonlinear_arith)
                requires
                    st2.ry() == st.sy * (st.ey - (st.cy + st.sy)),
                    ry == st.sy * (st.ey - st.cy),
                    st.sy == 1 || st.sy == -1,
            ;
            assert(st2.rx() == rx);
            assert(st2.err == e0 + (dy - st2.ry()) * dx - (dx - st2.rx()) * dy)
                by (nonlinear_arith)
                requires
                    st2.err == st.err + dx,
                    st.err == e0 + (dy - ry) * dx - (dx - rx) * dy,
                    st2.ry() == ry - 1,
                    st2.rx() == rx,
            ;
        }
    }
}

/// The walk always begins at the current cell and always ends at the end
/// cell.
pub proof fn lemma_walk_endpoints(st: LineState)
    requires
        st.wf(),
    ensures
        walk(st).len() >= 1,
        walk(st)[0] == (st.cx, st.cy),
        walk(st).last() == (st.ex, st.ey),
    decreases st.rx() + st.ry(),
{
    if !st.at_end() {
        lemma_step_wf(st);
        lemma_walk_endpoints(st.step());
        assert(walk(st).last() == walk(st.step()).last());
    }
}

/// How one step changes the remaining distance on each axis, branch by
/// branch.
proof fn lemma_step_deltas(st: LineState)
    requires
        st.wf(),
        !st.at_end(),
    ensures
        st.err > -st.dx ==> st.step().rx() == st.rx() - 1,
        !(st.err > -st.dx) ==> st.step().rx() == st.rx(),
        st.err < st.dy ==> st.step().ry() == st.ry() - 1,
        !(st.err < st.dy) ==> st.step().ry() == st.ry(),
{
    lemma_step_wf(st);
    let st2 = st.step();
    if st.err > -st.dx {
        assert(st2.cx == st.cx + st.sx);
        assert(st2.rx() == st.rx() - 1) by (nonlinear_arith)
            requires
                st2.rx() == st.sx * (st.ex - (st.cx + st.sx)),
                st.rx() == st.sx * (st.ex - st.cx),
                st.sx == 1 || st.sx == -1,
        ;
    } else {
        assert(st2.cx == st.cx);
    }
    if st.err < st.dy {
        assert(st2.cy == st.cy + st.sy);
        assert(st2.ry() == st.ry() - 1) by (nonlinear_arith)
            requires
                st2.ry() == st.sy * (st.ey - (st.cy + st.sy)),
                st.ry() == st.sy * (st.ey - st.cy),
                st.sy == 1 || st.sy == -1,
        ;
    } else {
        assert(st2.cy == st.cy);
    }
}

/// The walk is exactly as long as the dominant remaining distance plus
/// one: the dominant axis steps on every iteration, and the minor axis
/// arrives with it.
pub proof fn lemma_walk_len(st: LineState)
    requires
        st.wf(),
    ensures
        walk(st).len() == maxi(st.rx(), st.ry()) + 1,
    decreases st.rx() + st.ry(),
{
    if !st.at_end() {
        lemma_step_wf(st);
        lemma_step_deltas(st);
        let st2 = st.step();
        lemma_walk_len(st2);
        let rx = st.rx();
        let ry = st.ry();
        let dx = st.dx;
        let dy = st.dy;
        let e0 = init_err(dx, dy);
        // A flattened form of the error equation.
        assert(st.err == e0 + rx * dy - ry * dx) by (nonlinear_arith)
            requires
                st.err == e0 + (dy - ry) * dx - (dx - rx) * dy,
        ;
        if dx > dy {
            vstd::arithmetic::div_mod::lemma_fundamental_div_mod(dx, 2);
            vstd::arithmetic::div_mod::lemma_mod_bound(dx, 2);
            // The minor distance never exceeds the dominant one.
            assert(ry <= rx) by (nonlinear_arith)
                requires
                    st.err == e0 + rx * dy - ry * dx,
                    st.err >= 0,
                    e0 < dx,
                    0 <= dy < dx,
                    0 <= rx,
                    0 <= ry,
            ;
            if rx == 0 {
                assert(false);
            }
            assert(st.err > -dx);
            if st.err < dy {
                assert(st2.rx() == rx - 1 && st2.ry() == ry - 1);
                assert(maxi(st2.rx(), st2.ry()) == maxi(rx, ry) - 1);
            } else {
                // The minor axis rests only while it is strictly behind.
                if ry == rx {
                    assert(st.err <= e0 + dy - dx) by (nonlinear_arith)
                        requires
                            st.err == e0 + rx * dy - ry * dx,
                            ry == rx,
                            rx >= 1,
                            dy < dx,
                    ;
                    assert(false);
                }
                assert(st2.rx() == rx - 1 && st2.ry() == ry);
                assert(maxi(st2.rx(), st2.ry()) == maxi(rx, ry) - 1);
            }
        } else if dx < dy {
            vstd::arithmetic::div_mod::lemma_fundamental_div_mod(dy, 2);
            vstd::arithmetic::div_mod::lemma_mod_bound(dy, 2);
            assert(rx <= ry) by (nonlinear_arith)
                requires
                    st.err == e0 + rx * dy - ry * dx,
                    st.err <= 0,
                    -dy < e0,
                    0 <= dx < dy,
                    0 <= rx,
                    0 <= ry,
            ;
            if ry == 0 {
                assert(false);
            }
            assert(st.err < dy);
            if st.err > -dx {
                assert(st2.rx() == rx - 1 && st2.ry() == ry - 1);
                assert(maxi(st2.rx(), st2.ry()) == maxi(rx, ry) - 1);
            } else {
                if rx == ry {
                    assert(st.err >= e0 + dy - dx) by (nonlinear_arith)
                        requires
                            st.err == e0 + rx * dy - ry * dx,
                            rx == ry,
                            ry >= 1,
                            dx < dy,
                    ;
                    assert(false);
                }
                assert(st2.rx() == rx && st2.ry() == ry - 1);
                assert(maxi(st2.rx(), st2.ry()) == maxi(rx, ry) - 1);
            }
        } else {
            // Diagonal: the distances stay in lockstep.
            if dy == 0 {
                assert(st.err == 0 && rx == 0 && ry == 0);
                assert(false);
            }
            assert(rx == ry) by (nonlinear_arith)
                requires
                    st.err == e0 + rx * dy - ry * dx,
                    dx == dy,
                    0 < dy,
                    -dy < st.err <= 0,
                    -dy < e0 <= 0,
                    0 <= rx <= dx,
                    0 <= ry <= dy,
            ;
            assert(st.err > -dx && st.err < dy);
            assert(st2.rx() == rx - 1 && st2.ry() == ry - 1);
            assert(maxi(st2.rx(), st2.ry()) == maxi(rx, ry) - 1);
        }
    }
}

/// On an x-dominant segment the x axis steps on every iteration, so the
/// x coordinates of the walk are consecutive.
proof fn lemma_walk_x_arithmetic(st: LineState)
    requires
        st.wf(),
        st.dx >= st.dy,
    ensures
        forall|k: int|
            0 <= k < walk(st).len() ==> (#[trigger] walk(st)[k]).0 == st.cx + k * st.sx
                || walk(st).len() == 1,
    decreases st.rx() + st.ry(),
{
    if !st.at_end() {
        lemma_step_wf(st);
        let st2 = st.step();
        lemma_walk_x_arithmetic(st2);
        lemma_walk_len(st);
        lemma_walk_len(st2);
        // The dominant axis steps: with a positive error band (dx > dy)
        // or on the diagonal, the x condition always fires.
        if st.dx > st.dy {
            assert(st.err >= 0);
        } else {
            assert(st.dx == st.dy);
            if st.dy == 0 {
                assert(st.err == 0 && st.rx() == 0 && st.ry() == 0);
                assert(false);
            }
            assert(st.err > -st.dx);
        }
        assert(st2.cx == st.cx + st.sx);
        assert(walk(st).len() > 1);
        assert(walk(st2).len() == walk(st).len() - 1);
        assert forall|k: int| 0 <= k < walk(st).len() implies (#[trigger] walk(st)[k]).0 == st.cx
            + k * st.sx || walk(st).len() == 1 by {
            if k == 0 {
                assert(walk(st)[0] == (st.cx, st.cy));
                assert(st.cx + 0 * st.sx == st.cx);
            } else {
                assert(walk(st)[k] == walk(st2)[k - 1]);
                if walk(st2).len() == 1 {
                    assert(k == 1);
                    assert(walk(st2)[0] == (st2.cx, st2.cy));
                    assert(st.cx + 1 * st.sx == st2.cx) by (nonlinear_arith)
                        requires
                            st2.cx == st.cx + st.sx,
                    ;
                } else {
                    assert(walk(st2)[k - 1].0 == st2.cx + (k - 1) * st2.sx);
                    assert(st2.cx + (k - 1) * st2.sx == st.cx + k * st.sx) by (nonlinear_arith)
                        requires
                            st2.cx == st.cx + st.sx,
                            st2.sx == st.sx,
                    ;
                }
            }
        }
    }
}

/// On a y-dominant segment the y axis steps on every iteration, so the
/// y coordinates of the walk are consecutive.
proof fn lemma_walk_y_arithmetic(st: LineState)
    requires
        st.wf(),
        st.dx < st.dy,
    ensures
        forall|k: int|
            0 <= k < walk(st).len() ==> (#[trigger] walk(st)[k]).1 == st.cy + k * st.sy,
    decreases st.rx() + st.ry(),
{
    if !st.at_end() {
        lemma_step_wf(st);
        let st2 = st.step();
        lemma_walk_y_arithmetic(st2);
        assert(st.err <= 0);
        assert(st.err < st.dy);
        assert(st2.cy == st.cy + st.sy);
        assert forall|k: int| 0 <= k < walk(st).len() implies (#[trigger] walk(st)[k]).1 == st.cy
            + k * st.sy by {
            if k == 0 {
                assert(walk(st)[0] == (st.cx, st.cy));
                assert(st.cy + 0 * st.sy == st.cy);
            } else {
                assert(walk(st)[k] == walk(st2)[k - 1]);
                assert(walk(st2)[k - 1].1 == st2.cy + (k - 1) * st2.sy);
                assert(st2.cy + (k - 1) * st2.sy == st.cy + k * st.sy) by (nonlinear_arith)
                    requires
                        st2.cy == st.cy + st.sy,
                        st2.sy == st.sy,
                ;
            }
        }
    } else {
        assert(walk(st).len() == 1);
        assert(walk(st)[0] == (st.cx, st.cy));
        assert(st.cy + 0 * st.sy == st.cy);
    }
}

/// The rasterized segment is exactly as long as its dominant delta plus
/// one, and visits each of its cells exactly once.
pub proof fn lemma_line_len_and_distinct(x1: int, y1: int, x2: int, y2: int)
    requires
        absi(x1) <= RASTER_LIMIT as int,
        absi(y1) <= RASTER_LIMIT as int,
        absi(x2) <= RASTER_LIMIT as int,
        absi(y2) <= RASTER_LIMIT as int,
    ensures
        line(x1, y1, x2, y2).len() == maxi(absi(x2 - x1), absi(y2 - y1)) + 1,
        forall|i: int, j: int|
            0 <= i < j < line(x1, y1, x2, y2).len() ==> line(x1, y1, x2, y2)[i] != line(
                x1,
                y1,
                x2,
                y2,
            )[j],
{
    let st = line_start(x1, y1, x2, y2);
    lemma_line_start_wf(x1, y1, x2, y2);
    lemma_walk_len(st);
    if st.dx >= st.dy {
        lemma_walk_x_arithmetic(st);
        assert forall|i: int, j: int| 0 <= i < j < walk(st).len() implies walk(st)[i] != walk(
            st,
        )[j] by {
            if walk(st).len() > 1 {
                assert(walk(st)[i].0 == st.cx + i * st.sx);
                assert(walk(st)[j].0 == st.cx + j * st.sx);
                assert(st.cx + i * st.sx != st.cx + j * st.sx) by (nonlinear_arith)
                    requires
                        i != j,
                        st.sx == 1 || st.sx == -1,
                ;
            }
        }
    } else {
        lemma_walk_y_arithmetic(st);
        assert forall|i: int, j: int| 0 <= i < j < walk(st).len() implies walk(st)[i] != walk(
            st,
        )[j] by {
            assert(walk(st)[i].1 == st.cy + i * st.sy);
            assert(walk(st)[j].1 == st.cy + j * st.sy);
            assert(st.cy + i * st.sy != st.cy + j * st.sy) by (nonlinear_arith)
                requires
                    i != j,
                    st.sy == 1 || st.sy == -1,
            ;
        }
    }
}

/// A rasterized segment includes both of its endpoints: it begins at the
/// start cell and ends at the end cell.
pub proof fn lemma_line_endpoints(x1: int, y1: int, x2: int, y2: int)
    requires
        absi(x1) <= RASTER_LIMIT as int,
        absi(y1) <= RASTER_LIMIT as int,
        absi(x2) <= RASTER_LIMIT as int,
        absi(y2) <= RASTER_LIMIT as int,
    ensures
        line(x1, y1, x2, y2).len() >= 1,
        line(x1, y1, x2, y2)[0] == (x1, y1),
        line(x1, y1, x2, y2).last() == (x2, y2),
{
    lemma_line_start_wf(x1, y1, x2, y2);
    lemma_walk_endpoints(line_start(x1, y1, x2, y2));
}

/// The x movement of one walk step on an axis-aligned or diagonal
/// segment.
pub open spec fn xstep(st: LineState) -> int {
    if st.dx == 0 {
        0
    } else {
        st.sx
    }
}

/// The y movement of one walk step on an axis-aligned or diagonal
/// segment.
pub open spec fn ystep(st: LineState) -> int {
    if st.dy == 0 {
        0
    } else {
        st.sy
    }
}

/// A segment is straight when it is axis-aligned or diagonal.
pub open spec fn straight(dx: int, dy: int) -> bool {
    dx == 0 || dy == 0 || dx == dy
}

/// On a straight segment the walk is arithmetic: cell `k` is the start
/// cell moved `k` steps along the fixed direction, and the walk is
/// exactly as long as the dominant delta plus one.
pub proof fn lemma_walk_straight(st: LineState)
    requires
        st.wf(),
        straight(st.dx, st.dy),
    ensures
        walk(st).len() == maxi(st.rx(), st.ry()) + 1,
        forall|k: int|
            0 <= k < walk(st).len() ==> walk(st)[k] == (st.cx + k * xstep(st), st.cy + k * ystep(
                st,
            )),
    decreases st.rx() + st.ry(),
{
    if st.at_end() {
        assert(st.rx() == 0 && st.ry() == 0) by (nonlinear_arith)
            requires
                st.rx() == st.sx * (st.ex - st.cx),
                st.ry() == st.sy * (st.ey - st.cy),
                st.cx == st.ex,
                st.cy == st.ey,
        ;
        assert(walk(st).len() == 1);
        assert(walk(st)[0] == (st.cx + 0 * xstep(st), st.cy + 0 * ystep(st)));
    } else {
        lemma_step_wf(st);
        let st2 = st.step();
        // On a straight segment the branch pattern is fixed, so one step
        // moves exactly (xstep, ystep).
        if st.dx == 0 {
            assert(st.rx() == 0);
            assert(st.ry() > 0);
            assert(st.dy > 0);
            assert(st.err <= 0);
            assert(!(st.err > -st.dx));
            assert(st.err < st.dy);
            assert(st2.cx == st.cx && st2.cy == st.cy + st.sy);
        } else if st.dy == 0 {
            assert(st.err >= 0);
            assert(st.err > -st.dx);
            assert(!(st.err < st.dy));
            assert(st2.cx == st.cx + st.sx && st2.cy == st.cy);
        } else {
            assert(st.dx == st.dy && st.dx > 0);
            assert(-st.dy < st.err <= 0);
            assert(st.err > -st.dx);
            assert(st.err < st.dy);
            assert(st2.cx == st.cx + st.sx && st2.cy == st.cy + st.sy);
        }
        assert(st2.cx == st.cx + xstep(st) && st2.cy == st.cy + ystep(st));
        lemma_walk_straight(st2);
        // The remaining distances shrink in lockstep with the direction.
        if xstep(st) != 0 {
            assert(st2.rx() == st.rx() - 1) by (nonlinear_arith)
                requires
                    st2.rx() == st.sx * (st.ex - st2.cx),
                    st.rx() == st.sx * (st.ex - st.cx),
                    st2.cx == st.cx + st.sx,
                    st.sx == 1 || st.sx == -1,
            ;
        } else {
            assert(st2.rx() == st.rx());
        }
        if ystep(st) != 0 {
            assert(st2.ry() == st.ry() - 1) by (nonlinear_arith)
                requires
                    st2.ry() == st.sy * (st.ey - st2.cy),
                    st.ry() == st.sy * (st.ey - st.cy),
                    st2.cy == st.cy + st.sy,
                    st.sy == 1 || st.sy == -1,
            ;
        } else {
            assert(st2.ry() == st.ry());
        }
        assert(maxi(st.rx(), st.ry()) == maxi(st2.rx(), st2.ry()) + 1);
        assert(walk(st).len() == maxi(st.rx(), st.ry()) + 1);
        assert forall|k: int| 0 <= k < walk(st).len() implies walk(st)[k] == (st.cx + k * xstep(
        st), st.cy + k * ystep(st)) by {
            if k == 0 {
                assert(walk(st)[0] == (st.cx, st.cy));
                assert(st.cx + 0 * xstep(st) == st.cx);
                assert(st.cy + 0 * ystep(st) == st.cy);
            } else {
                assert(walk(st)[k] == walk(st2)[k - 1]);
                assert(walk(st2)[k - 1] == (st2.cx + (k - 1) * xstep(st2), st2.cy + (k - 1)
                    * ystep(st2)));
                assert(xstep(st2) == xstep(st) && ystep(st2) == ystep(st));
                assert(st2.cx + (k - 1) * xstep(st2) == st.cx + k * xstep(st))
                    by (nonlinear_arith)
                    requires
                        st2.cx == st.cx + xstep(st),
                        xstep(st2) == xstep(st),
                ;
                assert(st2.cy + (k - 1) * ystep(st2) == st.cy + k * ystep(st))
                    by (nonlinear_arith)
                    requires
                        st2.cy == st.cy + ystep(st),
                        ystep(st2) == ystep(st),
                ;
            }
        }
    }
}

/// Rasterization is direction-symmetric on axis-aligned and diagonal
/// segments: walking the segment from its far end yields exactly the
/// reversed cell sequence, and in particular the identical set of cells.
pub proof fn lemma_line_reversal(x1: int, y1: int, x2: int, y2: int)
    requires
        absi(x1) <= RASTER_LIMIT as int,
        absi(y1) <= RASTER_LIMIT as int,
        absi(x2) <= RASTER_LIMIT as int,
        absi(y2) <= RASTER_LIMIT as int,
        x1 == x2 || y1 == y2 || absi(x2 - x1) == absi(y2 - y1),
    ensures
        line(x1, y1, x2, y2) == line(x2, y2, x1, y1).reverse(),
{
    let a = line_start(x1, y1, x2, y2);
    let b = line_start(x2, y2, x1, y1);
    lemma_line_start_wf(x1, y1, x2, y2);
    lemma_line_start_wf(x2, y2, x1, y1);
    assert(a.dx == b.dx && a.dy == b.dy);
    lemma_walk_straight(a);
    lemma_walk_straight(b);
    let la = walk(a);
    let lb = walk(b);
    let n = la.len() as int;
    assert(lb.len() == n);
    assert forall|k: int| 0 <= k < n implies la[k] == lb.reverse()[k] by {
        assert(lb.reverse()[k] == lb[n - 1 - k]);
        assert(la[k] == (a.cx + k * xstep(a), a.cy + k * ystep(a)));
        assert(lb[n - 1 - k] == (b.cx + (n - 1 - k) * xstep(b), b.cy + (n - 1 - k) * ystep(b)));
        // The two directions are opposite, and the far start is the whole
        // segment away: the terms line up.
        assert(x2 == x1 + (n - 1) * xstep(a)) by (nonlinear_arith)
            requires
                n - 1 == maxi(a.dx, a.dy),
                straight(a.dx, a.dy),
                a.dx == if x2 - x1 >= 0 {
                    x2 - x1
                } else {
                    -(x2 - x1)
                },
                a.sx == if x1 < x2 {
                    1int
                } else {
                    -1int
                },
                xstep(a) == if a.dx == 0 {
                    0int
                } else {
                    a.sx
                },
                a.dx >= 0,
                a.dy >= 0,
                maxi(a.dx, a.dy) == if a.dx >= a.dy {
                    a.dx
                } else {
                    a.dy
                },
        ;
        assert(y2 == y1 + (n - 1) * ystep(a)) by (nonlinear_arith)
            requires
                n - 1 == maxi(a.dx, a.dy),
                straight(a.dx, a.dy),
                a.dy == if y2 - y1 >= 0 {
                    y2 - y1
                } else {
                    -(y2 - y1)
                },
                a.sy == if y1 < y2 {
                    1int
                } else {
                    -1int
                },
                ystep(a) == if a.dy == 0 {
                    0int
                } else {
                    a.sy
                },
                a.dx >= 0,
                a.dy >= 0,
                maxi(a.dx, a.dy) == if a.dx >= a.dy {
                    a.dx
                } else {
                    a.dy
                },
        ;
        assert(xstep(b) == -xstep(a) || (xstep(b) == 0 && xstep(a) == 0));
        assert(ystep(b) == -ystep(a) || (ystep(b) == 0 && ystep(a) == 0));
        assert(x2 + (n - 1 - k) * xstep(b) == x1 + k * xstep(a)) by (nonlinear_arith)
            requires
                x2 == x1 + (n - 1) * xstep(a),
                xstep(b) == -xstep(a) || (xstep(b) == 0 && xstep(a) == 0),
                0 <= k <= n - 1,
        ;
        assert(y2 + (n - 1 - k) * ystep(b) == y1 + k * ystep(a)) by (nonlinear_arith)
            requires
                y2 == y1 + (n - 1) * ystep(a),
                ystep(b) == -ystep(a) || (ystep(b) == 0 && ystep(a) == 0),
                0 <= k <= n - 1,
        ;
    }
    assert(la =~= lb.reverse());
}

/// A lazy, restartable producer of the cells of one rasterized segment.
pub struct Bresenham {
    end_x: i64,
    end_y: i64,
    delta_x: i64,
    delta_y: i64,
    step_x: i64,
    step_y: i64,
    error: i64,
    current_x: i64,
    current_y: i64,
    consumed: bool,
}

impl Bresenham {
    /// The walk state held by the iterator.
    pub closed spec fn state(self) -> LineState {
        LineState {
            cx: self.current_x as int,
            cy: self.current_y as int,
            ex: self.end_x as int,
            ey: self.end_y as int,
            dx: self.delta_x as int,
            dy: self.delta_y as int,
            sx: self.step_x as int,
            sy: self.step_y as int,
            err: self.error as int,
        }
    }

    /// Whether the end cell has already been yielded.
    pub closed spec fn done(self) -> bool {
        self.consumed
    }

    /// The iterator is a walk in a well-formed state.
    pub open spec fn wf(self) -> bool {
        self.state().wf()
    }

    /// The cells this iterator has yet to yield, in order.
    pub open spec fn remaining(self) -> Seq<(int, int)> {
        if self.done() {
            Seq::empty()
        } else {
            walk(self.state())
        }
    }

    /// Yields the next cell of the segment, or `None` once the end cell
    /// has been yielded.
    pub fn next(&mut self) -> (r: Option<(i64, i64)>)
        requires
            old(self).wf(),
        ensures
            final(self).wf(),
            old(self).remaining().len() == 0 ==> r is None && final(self).remaining().len() == 0,
            old(self).remaining().len() > 0 ==> match r {
                Some(p) => (p.0 as int, p.1 as int) == old(self).remaining()[0]
                    && final(self).remaining() == old(self).remaining().drop_first(),
                None => false,
            },
    {
        if self.consumed {
            return None;
        }
        let ghost st = self.state();
        let result: (i64, i64) = (self.current_x, self.current_y);
        if self.current_x == self.end_x && self.current_y == self.end_y {
            self.consumed = true;
            proof {
                assert(walk(st) == seq![(st.cx, st.cy)]);
            }
        } else {
            proof {
                lemma_step_wf(st);
                // Every stored quantity stays within range when stepping.
                assert(-3 * (RASTER_LIMIT as int) <= st.cx <= 3 * (RASTER_LIMIT as int) && -3 * (
                RASTER_LIMIT as int) <= st.cy <= 3 * (RASTER_LIMIT as int)) by (nonlinear_arith)
                    requires
                        st.rx() == st.sx * (st.ex - st.cx),
                        st.ry() == st.sy * (st.ey - st.cy),
                        st.sx == 1 || st.sx == -1,
                        st.sy == 1 || st.sy == -1,
                        0 <= st.rx() <= st.dx,
                        0 <= st.ry() <= st.dy,
                        st.dx <= 2 * (RASTER_LIMIT as int),
                        st.dy <= 2 * (RASTER_LIMIT as int),
                        -(RASTER_LIMIT as int) <= st.ex <= RASTER_LIMIT as int,
                        -(RASTER_LIMIT as int) <= st.ey <= RASTER_LIMIT as int,
                ;
            }
            let error2: i64 = self.error;
            if error2 > -self.delta_x {
                self.error = self.error - self.delta_y;
                self.current_x = self.current_x + self.step_x;
            }
            if error2 < self.delta_y {
                self.error = self.error + self.delta_x;
                self.current_y = self.current_y + self.step_y;
            }
            proof {
                assert(self.state() == st.step());
                assert(walk(st) == seq![(st.cx, st.cy)] + walk(st.step()));
                assert(walk(st).drop_first() =~= walk(st.step()));
            }
        }
        Some(result)
    }
}

/// Starts the rasterization of the segment from `(x1, y1)` to `(x2, y2)`.
/// The cells the returned iterator yields are exactly
/// `line(x1, y1, x2, y2)`.
pub fn bresenham(x1: i64, y1: i64, x2: i64, y2: i64) -> (r: Bresenham)
    requires
        absi(x1 as int) <= RASTER_LIMIT as int,
        absi(y1 as int) <= RASTER_LIMIT as int,
        absi(x2 as int) <= RASTER_LIMIT as int,
        absi(y2 as int) <= RASTER_LIMIT as int,
    ensures
        r.wf(),
        r.remaining() == line(x1 as int, y1 as int, x2 as int, y2 as int),
{
    let dx: i64 = if x2 >= x1 {
        x2 - x1
    } else {
        x1 - x2
    };
    let dy: i64 = if y2 >= y1 {
        y2 - y1
    } else {
        y1 - y2
    };
    let error: i64 = if dx > dy {
        ((dx as u64) / 2) as i64
    } else {
        -(((dy as u64) / 2) as i64)
    };
    let r = Bresenham {
        end_x: x2,
        end_y: y2,
        delta_x: dx,
        delta_y: dy,
        step_x: if x1 < x2 {
            1
        } else {
            -1
        },
        step_y: if y1 < y2 {
            1
        } else {
            -1
        },
        error,
        current_x: x1,
        current_y: y1,
        consumed: false,
    };
    proof {
        lemma_line_start_wf(x1 as int, y1 as int, x2 as int, y2 as int);
        assert(r.state() == line_start(x1 as int, y1 as int, x2 as int, y2 as int));
    }
    r
}

} // verus!
