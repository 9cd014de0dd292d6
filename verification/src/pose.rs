//! Rigid transforms of the plane in fixed-point arithmetic.
//!
//! A [`Pose`] is a translation in integer world subunits together with a
//! rotation stored as a cosine/sine pair scaled by [`TRIG_ONE`].  Poses
//! compose and invert with pure integer arithmetic; every division scales
//! a product of two fixed-point factors back down by [`TRIG_ONE`],
//! rounding toward zero.

use vstd::prelude::*;

verus! {

/// Fixed-point scale of rotation entries: a rotation stores its cosine
/// and sine multiplied by this constant.
pub const TRIG_ONE: i64 = 1_000_000;

/// Magnitude bound on translations accepted by the transform operations;
/// generous enough for any real map while keeping all results within `i64`.
pub const POSE_LIMIT: i64 = 36_000_000_000_000_000;

/// Magnitude bound on the world coordinates and ranges of the input data:
/// poses and readings handed to the map construction stay within this many
/// subunits of the origin, which leaves ample headroom below
/// [`POSE_LIMIT`] for composing transforms.
pub const COORD_LIMIT: i64 = 1_000_000_000_000;

/// Integer division rounding toward zero (for a positive divisor this is
/// what `/` does on Rust's signed integers).
pub open spec fn tdiv(n: int, d: int) -> int {
    if n >= 0 {
        n / d
    } else {
        -((-n) / d)
    }
}

/// Absolute value.
pub open spec fn absi(n: int) -> int {
    if n >= 0 {
        n
    } else {
        -n
    }
}

/// A point of the plane in integer world subunits.
#[derive(Clone, Copy, Debug, PartialEq, Eq, Structural)]
pub struct Point {
    pub x: i64,
    pub y: i64,
}

/// A rotation of the plane: cosine and sine scaled by [`TRIG_ONE`].
#[derive(Clone, Copy, Debug, PartialEq, Eq, Structural)]
pub struct Rot {
    pub c: i64,
    pub s: i64,
}

impl Rot {
    /// The scaled cosine/sine pair lies on or inside the circle of radius
    /// [`TRIG_ONE`]; scaling a real unit vector and rounding each entry
    /// toward zero always lands inside.
    pub open spec fn wf(self) -> bool {
        self.c * self.c + self.s * self.s <= TRIG_ONE * TRIG_ONE
    }

    /// Builds a rotation after checking that the pair lies on or inside
    /// the circle of radius [`TRIG_ONE`].
    pub fn new(c: i64, s: i64) -> (r: Option<Rot>)
        ensures
            match r {
                Some(rot) => rot.c == c && rot.s == s && rot.wf(),
                None => c * c + s * s > TRIG_ONE * TRIG_ONE,
            },
    {
        if c > TRIG_ONE || c < -TRIG_ONE || s > TRIG_ONE || s < -TRIG_ONE {
            proof {
                lemma_abs_gt_implies_sq_gt(c as int, s as int, TRIG_ONE as int);
            }
            return None;
        }
        proof {
            lemma_mul_abs_bound(c as int, c as int, TRIG_ONE as int, TRIG_ONE as int);
            lemma_mul_abs_bound(s as int, s as int, TRIG_ONE as int, TRIG_ONE as int);
        }
        let cc: i128 = (c as i128) * (c as i128);
        let ss: i128 = (s as i128) * (s as i128);
        let tt: i128 = (TRIG_ONE as i128) * (TRIG_ONE as i128);
        if cc + ss <= tt {
            Some(Rot { c, s })
        } else {
            None
        }
    }

    /// The identity rotation.
    pub fn identity() -> (r: Rot)
        ensures
            r.c == TRIG_ONE,
            r.s == 0,
            r.wf(),
    {
        Rot { c: TRIG_ONE, s: 0 }
    }
}

/// A rigid transform of the plane: rotation by the scaled cosine/sine
/// pair `(c, s)` followed by translation by `(x, y)` world subunits.
#[derive(Clone, Copy, Debug, PartialEq, Eq, Structural)]
pub struct Pose {
    pub x: i64,
    pub y: i64,
    pub c: i64,
    pub s: i64,
}

/// The rotation part of composing two poses: the angle-sum formulas,
/// scaled back down by [`TRIG_ONE`].
pub open spec fn compose_c(a: Pose, b: Pose) -> int {
    tdiv(a.c * b.c - a.s * b.s, TRIG_ONE as int)
}

pub open spec fn compose_s(a: Pose, b: Pose) -> int {
    tdiv(a.s * b.c + a.c * b.s, TRIG_ONE as int)
}

/// The translation part of composing two poses: `b`'s translation
/// rotated by `a` and then shifted by `a`'s translation.
pub open spec fn compose_x(a: Pose, b: Pose) -> int {
    a.x + tdiv(a.c * b.x - a.s * b.y, TRIG_ONE as int)
}

pub open spec fn compose_y(a: Pose, b: Pose) -> int {
    a.y + tdiv(a.s * b.x + a.c * b.y, TRIG_ONE as int)
}

/// The pose that composing two poses yields; defined whenever the parts
/// fit `i64`, which [`Pose::compose`]'s bounds guarantee.
pub open spec fn spec_compose(a: Pose, b: Pose) -> Pose {
    Pose {
        x: compose_x(a, b) as i64,
        y: compose_y(a, b) as i64,
        c: compose_c(a, b) as i64,
        s: compose_s(a, b) as i64,
    }
}

/// The pose that inverting a pose yields; defined whenever the parts fit
/// `i64`, which [`Pose::inverse`]'s bounds guarantee.
pub open spec fn spec_inverse(p: Pose) -> Pose {
    Pose {
        x: tdiv(-(p.c * p.x + p.s * p.y), TRIG_ONE as int) as i64,
        y: tdiv(p.s * p.x - p.c * p.y, TRIG_ONE as int) as i64,
        c: p.c,
        s: (-p.s) as i64,
    }
}

/// Where a pose maps the point `(px, py)`.
pub open spec fn apply_x(p: Pose, px: int, py: int) -> int {
    p.x + tdiv(p.c * px - p.s * py, TRIG_ONE as int)
}

pub open spec fn apply_y(p: Pose, px: int, py: int) -> int {
    p.y + tdiv(p.s * px + p.c * py, TRIG_ONE as int)
}

impl Pose {
    /// The rotation part lies on or inside the circle of radius
    /// [`TRIG_ONE`].  Composition preserves this.
    pub open spec fn rot_wf(self) -> bool {
        self.c * self.c + self.s * self.s <= TRIG_ONE * TRIG_ONE
    }

    /// The translation part is within `bound` subunits of the origin on
    /// each axis.
    pub open spec fn pos_bounded(self, bound: int) -> bool {
        absi(self.x as int) <= bound && absi(self.y as int) <= bound
    }

    /// The identity transform.
    pub fn identity() -> (r: Pose)
        ensures
            r == (Pose { x: 0, y: 0, c: TRIG_ONE, s: 0 }),
            r.rot_wf(),
            r.pos_bounded(0),
    {
        proof {
            lemma_mul_abs_bound(TRIG_ONE as int, TRIG_ONE as int, TRIG_ONE as int,
                TRIG_ONE as int);
        }
        Pose { x: 0, y: 0, c: TRIG_ONE, s: 0 }
    }

    /// Builds a pose from a translation and a rotation.
    pub fn from_parts(x: i64, y: i64, rot: Rot) -> (r: Pose)
        ensures
            r == (Pose { x, y, c: rot.c, s: rot.s }),
            rot.wf() ==> r.rot_wf(),
    {
        Pose { x, y, c: rot.c, s: rot.s }
    }

    /// Composition: the transform that first applies `other`, then `self`.
    pub fn compose(&self, other: &Pose) -> (r: Pose)
        requires
            self.rot_wf(),
            other.rot_wf(),
            self.pos_bounded(POSE_LIMIT as int),
            other.pos_bounded(POSE_LIMIT as int),
        ensures
            r == spec_compose(*self, *other),
            r.x == compose_x(*self, *other),
            r.y == compose_y(*self, *other),
            r.c == compose_c(*self, *other),
            r.s == compose_s(*self, *other),
            r.rot_wf(),
            absi(r.x - self.x) <= absi(other.x as int) + absi(other.y as int),
            absi(r.y - self.y) <= absi(other.x as int) + absi(other.y as int),
    {
        let ghost t = TRIG_ONE as int;
        proof {
            lemma_rot_entry_bound(self.c as int, self.s as int);
            lemma_rot_entry_bound(other.c as int, other.s as int);
            lemma_mul_abs_bound(self.c as int, other.c as int, t, t);
            lemma_mul_abs_bound(self.s as int, other.s as int, t, t);
            lemma_mul_abs_bound(self.s as int, other.c as int, t, t);
            lemma_mul_abs_bound(self.c as int, other.s as int, t, t);
            lemma_mul_abs_bound(self.c as int, other.x as int, t, absi(other.x as int));
            lemma_mul_abs_bound(self.s as int, other.y as int, t, absi(other.y as int));
            lemma_mul_abs_bound(self.s as int, other.x as int, t, absi(other.x as int));
            lemma_mul_abs_bound(self.c as int, other.y as int, t, absi(other.y as int));
        }
        let ac = self.c as i128;
        let as_ = self.s as i128;
        let bc = other.c as i128;
        let bs = other.s as i128;
        let bx = other.x as i128;
        let by = other.y as i128;

        let cn: i128 = ac * bc - as_ * bs;
        let sn: i128 = as_ * bc + ac * bs;
        let xn: i128 = ac * bx - as_ * by;
        let yn: i128 = as_ * bx + ac * by;

        proof {
            lemma_rot_product_entry_bound(self.c as int, self.s as int, other.c as int,
                other.s as int);
            lemma_tdiv_bound(cn as int, t, t);
            lemma_tdiv_bound(sn as int, t, t);
            lemma_tdiv_bound(xn as int, t, absi(other.x as int) + absi(other.y as int));
            lemma_tdiv_bound(yn as int, t, absi(other.x as int) + absi(other.y as int));
            lemma_trunc_scale_keeps_wf(cn as int, sn as int, self.c as int, self.s as int,
                other.c as int, other.s as int);
        }
        let c = div_trig(cn) as i64;
        let s = div_trig(sn) as i64;
        let x = self.x + (div_trig(xn) as i64);
        let y = self.y + (div_trig(yn) as i64);
        Pose { x, y, c, s }
    }

    /// The inverse transform: composing `p.inverse()` with `p` gives the
    /// identity up to fixed-point rounding.
    pub fn inverse(&self) -> (r: Pose)
        requires
            self.rot_wf(),
            self.pos_bounded(POSE_LIMIT as int),
        ensures
            r == spec_inverse(*self),
            r.c == self.c,
            r.s == -self.s,
            r.x == tdiv(-(self.c * self.x + self.s * self.y), TRIG_ONE as int),
            r.y == tdiv(self.s * self.x - self.c * self.y, TRIG_ONE as int),
            r.rot_wf(),
            absi(r.x as int) <= absi(self.x as int) + absi(self.y as int),
            absi(r.y as int) <= absi(self.x as int) + absi(self.y as int),
    {
        let ghost t = TRIG_ONE as int;
        proof {
            lemma_rot_entry_bound(self.c as int, self.s as int);
            lemma_mul_abs_bound(self.c as int, self.x as int, t, absi(self.x as int));
            lemma_mul_abs_bound(self.s as int, self.y as int, t, absi(self.y as int));
            lemma_mul_abs_bound(self.s as int, self.x as int, t, absi(self.x as int));
            lemma_mul_abs_bound(self.c as int, self.y as int, t, absi(self.y as int));
        }
        let ac = self.c as i128;
        let as_ = self.s as i128;
        let px = self.x as i128;
        let py = self.y as i128;

        let xn: i128 = -(ac * px + as_ * py);
        let yn: i128 = as_ * px - ac * py;
        proof {
            lemma_tdiv_bound(xn as int, t, absi(self.x as int) + absi(self.y as int));
            lemma_tdiv_bound(yn as int, t, absi(self.x as int) + absi(self.y as int));
        }
        let x = div_trig(xn) as i64;
        let y = div_trig(yn) as i64;
        proof {
            assert((-(self.s as int)) * (-(self.s as int)) == self.s * self.s) by (nonlinear_arith);
        }
        Pose { x, y, c: self.c, s: -self.s }
    }

    /// Where this pose maps the point `(px, py)`.
    pub fn apply(&self, px: i64, py: i64) -> (r: (i64, i64))
        requires
            self.rot_wf(),
            self.pos_bounded(POSE_LIMIT as int),
            absi(px as int) <= POSE_LIMIT,
            absi(py as int) <= POSE_LIMIT,
        ensures
            r.0 == apply_x(*self, px as int, py as int),
            r.1 == apply_y(*self, px as int, py as int),
            absi(r.0 - self.x) <= absi(px as int) + absi(py as int),
            absi(r.1 - self.y) <= absi(px as int) + absi(py as int),
    {
        let ghost t = TRIG_ONE as int;
        proof {
            lemma_rot_entry_bound(self.c as int, self.s as int);
            lemma_mul_abs_bound(self.c as int, px as int, t, absi(px as int));
            lemma_mul_abs_bound(self.s as int, py as int, t, absi(py as int));
            lemma_mul_abs_bound(self.s as int, px as int, t, absi(px as int));
            lemma_mul_abs_bound(self.c as int, py as int, t, absi(py as int));
        }
        let ac = self.c as i128;
        let as_ = self.s as i128;
        let vx = px as i128;
        let vy = py as i128;

        let xn: i128 = ac * vx - as_ * vy;
        let yn: i128 = as_ * vx + ac * vy;
        proof {
            lemma_tdiv_bound(xn as int, t, absi(px as int) + absi(py as int));
            lemma_tdiv_bound(yn as int, t, absi(px as int) + absi(py as int));
        }
        let x = self.x + (div_trig(xn) as i64);
        let y = self.y + (div_trig(yn) as i64);
        (x, y)
    }
}

/// Truncating division is odd-symmetric in the dividend.
proof fn lemma_tdiv_neg(n: int, d: int)
    requires
        d >= 1,
    ensures
        tdiv(-n, d) == -tdiv(n, d),
{
    if n == 0 {
        vstd::arithmetic::div_mod::lemma_div_basics_1(d);
    }
}

/// Composing a pose with its inverse gives the identity up to
/// fixed-point rounding: the translation and the sine vanish exactly,
/// and the cosine falls short of [`TRIG_ONE`] only by what the rounding
/// of the rotation pair lost.  The lower bound asks that the rotation
/// pair lie near the circle, as every pair obtained by scaling a real
/// unit vector does.
pub proof fn lemma_inverse_composes_to_identity(p: Pose)
    requires
        p.rot_wf(),
        p.pos_bounded(POSE_LIMIT as int),
        (TRIG_ONE - 2) * (TRIG_ONE - 2) <= p.c * p.c + p.s * p.s,
    ensures
        compose_x(spec_inverse(p), p) == 0,
        compose_y(spec_inverse(p), p) == 0,
        compose_s(spec_inverse(p), p) == 0,
        TRIG_ONE - 4 <= compose_c(spec_inverse(p), p) <= TRIG_ONE,
{
    let t = TRIG_ONE as int;
    let q = spec_inverse(p);
    lemma_rot_entry_bound(p.c as int, p.s as int);
    lemma_mul_abs_bound(p.c as int, p.x as int, t, absi(p.x as int));
    lemma_mul_abs_bound(p.s as int, p.y as int, t, absi(p.y as int));
    lemma_mul_abs_bound(p.s as int, p.x as int, t, absi(p.x as int));
    lemma_mul_abs_bound(p.c as int, p.y as int, t, absi(p.y as int));
    let u = p.c * p.x + p.s * p.y;
    let v = p.s * p.x - p.c * p.y;
    lemma_tdiv_bound(-u, t, absi(p.x as int) + absi(p.y as int));
    lemma_tdiv_bound(v, t, absi(p.x as int) + absi(p.y as int));
    // The inverse's stored translation round-trips exactly: truncation is
    // odd-symmetric, so the rotated-back parts cancel term by term.
    assert(q.x == tdiv(-u, t) && q.y == tdiv(v, t));
    assert(compose_x(q, p) == q.x + tdiv(q.c * p.x - q.s * p.y, t));
    assert(q.c * p.x - q.s * p.y == u) by (nonlinear_arith)
        requires
            q.c == p.c,
            q.s == -p.s,
            u == p.c * p.x + p.s * p.y,
    ;
    lemma_tdiv_neg(u, t);
    assert(compose_y(q, p) == q.y + tdiv(q.s * p.x + q.c * p.y, t));
    assert(q.s * p.x + q.c * p.y == -v) by (nonlinear_arith)
        requires
            q.s == -p.s,
            q.c == p.c,
            v == p.s * p.x - p.c * p.y,
    ;
    lemma_tdiv_neg(v, t);
    // The sine of the composition vanishes exactly.
    assert(q.s * p.c + q.c * p.s == 0) by (nonlinear_arith)
        requires
            q.s == -p.s,
            q.c == p.c,
    ;
    assert(compose_s(q, p) == tdiv(0, t));
    vstd::arithmetic::div_mod::lemma_div_basics_1(t);
    // The cosine of the composition is the squared norm, scaled down.
    assert(q.c * p.c - q.s * p.s == p.c * p.c + p.s * p.s) by (nonlinear_arith)
        requires
            q.c == p.c,
            q.s == -p.s,
    ;
    let nn = p.c * p.c + p.s * p.s;
    assert(nn >= 0);
    assert(compose_c(q, p) == nn / t);
    vstd::arithmetic::div_mod::lemma_div_is_ordered((t - 2) * (t - 2), nn, t);
    vstd::arithmetic::div_mod::lemma_div_is_ordered(nn, t * t, t);
    assert((t * t) / t == t) by {
        vstd::arithmetic::div_mod::lemma_div_multiples_vanish(t, t);
    }
    assert(((t - 2) * (t - 2)) / t == t - 4) by {
        assert((t - 2) * (t - 2) == t * (t - 4) + 4) by (nonlinear_arith);
        vstd::arithmetic::div_mod::lemma_fundamental_div_mod_converse_div((t - 2) * (t - 2), t, t
            - 4, 4);
    }
}

/// Scales a fixed-point product back down by [`TRIG_ONE`], rounding
/// toward zero.
fn div_trig(n: i128) -> (r: i128)
    requires
        -(i128::MAX as int) <= n as int,
    ensures
        r == tdiv(n as int, TRIG_ONE as int),
{
    let t: u128 = TRIG_ONE as u128;
    if n >= 0 {
        proof {
            lemma_div_shrinks_nonneg(n as int, TRIG_ONE as int);
        }
        let q: u128 = (n as u128) / t;
        q as i128
    } else {
        proof {
            lemma_div_shrinks_nonneg(-(n as int), TRIG_ONE as int);
        }
        let m: u128 = (-n) as u128;
        let q: u128 = m / t;
        -(q as i128)
    }
}

/// For `n >= 0` and `d >= 1`, the quotient stays within `[0, n]`.
proof fn lemma_div_shrinks_nonneg(n: int, d: int)
    requires
        n >= 0,
        d >= 1,
    ensures
        0 <= n / d <= n,
{
    vstd::arithmetic::div_mod::lemma_div_is_ordered_by_denominator(n, 1, d);
    vstd::arithmetic::div_mod::lemma_div_basics(n);
    vstd::arithmetic::div_mod::lemma_div_pos_is_pos(n, d);
}

/// If `|a| <= ma` and `|b| <= mb` then `|a * b| <= ma * mb`.
proof fn lemma_mul_abs_bound(a: int, b: int, ma: int, mb: int)
    requires
        -ma <= a <= ma,
        -mb <= b <= mb,
    ensures
        -(ma * mb) <= a * b <= ma * mb,
{
    assert(-(ma * mb) <= a * b <= ma * mb) by (nonlinear_arith)
        requires
            -ma <= a <= ma,
            -mb <= b <= mb,
    ;
}

/// Rounding a product of two in-circle rotations toward zero keeps it in
/// the circle: the exact product lies in the circle of radius
/// `TRIG_ONE * TRIG_ONE`, and truncating division shrinks magnitudes.
proof fn lemma_trunc_scale_keeps_wf(cn: int, sn: int, ac: int, as_: int, bc: int, bs: int)
    requires
        cn == ac * bc - as_ * bs,
        sn == as_ * bc + ac * bs,
        ac * ac + as_ * as_ <= TRIG_ONE * TRIG_ONE,
        bc * bc + bs * bs <= TRIG_ONE * TRIG_ONE,
    ensures
        tdiv(cn, TRIG_ONE as int) * tdiv(cn, TRIG_ONE as int) + tdiv(sn, TRIG_ONE as int) * tdiv(
            sn,
            TRIG_ONE as int,
        ) <= TRIG_ONE * TRIG_ONE,
{
    lemma_rot_product_wf(ac, as_, bc, bs);
    let t = TRIG_ONE as int;
    let c2 = tdiv(cn, t);
    let s2 = tdiv(sn, t);
    lemma_tdiv_sq_le(cn, t);
    lemma_tdiv_sq_le(sn, t);
    lemma_sq_nonneg(ac);
    lemma_sq_nonneg(as_);
    lemma_sq_nonneg(bc);
    lemma_sq_nonneg(bs);
    assert(c2 * c2 * (t * t) + s2 * s2 * (t * t) <= cn * cn + sn * sn);
    assert(cn * cn + sn * sn <= (t * t) * (t * t)) by (nonlinear_arith)
        requires
            cn * cn + sn * sn == (ac * ac + as_ * as_) * (bc * bc + bs * bs),
            ac * ac + as_ * as_ <= t * t,
            bc * bc + bs * bs <= t * t,
            ac * ac + as_ * as_ >= 0,
            bc * bc + bs * bs >= 0,
    ;
    assert(c2 * c2 + s2 * s2 <= t * t) by (nonlinear_arith)
        requires
            c2 * c2 * (t * t) + s2 * s2 * (t * t) <= (t * t) * (t * t),
            t * t > 0,
    ;
}

/// The square of a truncated quotient, scaled back up by the squared
/// divisor, is at most the square of the dividend.
proof fn lemma_tdiv_sq_le(n: int, d: int)
    requires
        d >= 1,
    ensures
        tdiv(n, d) * tdiv(n, d) * (d * d) <= n * n,
{
    let m = if n >= 0 {
        n
    } else {
        -n
    };
    let q = m / d;
    vstd::arithmetic::div_mod::lemma_div_pos_is_pos(m, d);
    vstd::arithmetic::div_mod::lemma_fundamental_div_mod(m, d);
    vstd::arithmetic::div_mod::lemma_mod_bound(m, d);
    assert(q * d <= m) by (nonlinear_arith)
        requires
            m == d * q + m % d,
            m % d >= 0,
    ;
    assert(tdiv(n, d) * tdiv(n, d) == q * q) by {
        if n >= 0 {
        } else {
            assert((-q) * (-q) == q * q) by (nonlinear_arith);
        }
    }
    assert(q * q * (d * d) <= m * m) by (nonlinear_arith)
        requires
            0 <= q,
            1 <= d,
            q * d <= m,
    ;
    assert(m * m == n * n) by (nonlinear_arith)
        requires
            m == n || m == -n,
    ;
}

/// The product of two rotations, both in the circle of radius
/// [`TRIG_ONE`], has its cosine/sine pair in the circle of radius
/// `TRIG_ONE * TRIG_ONE`: the Brahmagupta identity.
proof fn lemma_rot_product_wf(ac: int, as_: int, bc: int, bs: int)
    requires
        ac * ac + as_ * as_ <= TRIG_ONE * TRIG_ONE,
        bc * bc + bs * bs <= TRIG_ONE * TRIG_ONE,
    ensures
        (ac * bc - as_ * bs) * (ac * bc - as_ * bs) + (as_ * bc + ac * bs) * (as_ * bc + ac * bs)
            == (ac * ac + as_ * as_) * (bc * bc + bs * bs),
{
    let p = ac * bc;
    let q = as_ * bs;
    let u = as_ * bc;
    let v = ac * bs;
    assert((p - q) * (p - q) == p * p - 2 * (p * q) + (q * q)) by (nonlinear_arith);
    assert((u + v) * (u + v) == u * u + 2 * (u * v) + (v * v)) by (nonlinear_arith);
    assert(p * q == u * v) by (nonlinear_arith)
        requires
            p == ac * bc,
            q == as_ * bs,
            u == as_ * bc,
            v == ac * bs,
    ;
    assert(p * p == (ac * ac) * (bc * bc)) by (nonlinear_arith)
        requires
            p == ac * bc,
    ;
    assert(q * q == (as_ * as_) * (bs * bs)) by (nonlinear_arith)
        requires
            q == as_ * bs,
    ;
    assert(u * u == (as_ * as_) * (bc * bc)) by (nonlinear_arith)
        requires
            u == as_ * bc,
    ;
    assert(v * v == (ac * ac) * (bs * bs)) by (nonlinear_arith)
        requires
            v == ac * bs,
    ;
    assert((ac * ac) * (bc * bc) + (as_ * as_) * (bs * bs) + (as_ * as_) * (bc * bc) + (ac * ac) * (
    bs * bs) == (ac * ac + as_ * as_) * (bc * bc + bs * bs)) by (nonlinear_arith);
}

/// Squares are nonnegative.
proof fn lemma_sq_nonneg(n: int)
    ensures
        n * n >= 0,
{
    assert(n * n >= 0) by (nonlinear_arith);
}

/// If one of `|c|`, `|s|` exceeds `t >= 0`, the pair lies outside the
/// circle of radius `t`.
proof fn lemma_abs_gt_implies_sq_gt(c: int, s: int, t: int)
    requires
        t >= 0,
        c > t || c < -t || s > t || s < -t,
    ensures
        c * c + s * s > t * t,
{
    lemma_sq_nonneg(c);
    lemma_sq_nonneg(s);
    if c > t || c < -t {
        assert(c * c > t * t) by (nonlinear_arith)
            requires
                t >= 0,
                c > t || c < -t,
        ;
    } else {
        assert(s * s > t * t) by (nonlinear_arith)
            requires
                t >= 0,
                s > t || s < -t,
        ;
    }
}

/// The entries of the exact (unscaled) product of two in-circle rotations
/// are at most `TRIG_ONE * TRIG_ONE` in magnitude.
proof fn lemma_rot_product_entry_bound(ac: int, as_: int, bc: int, bs: int)
    requires
        ac * ac + as_ * as_ <= TRIG_ONE * TRIG_ONE,
        bc * bc + bs * bs <= TRIG_ONE * TRIG_ONE,
    ensures
        -(TRIG_ONE * TRIG_ONE) <= ac * bc - as_ * bs <= TRIG_ONE * TRIG_ONE,
        -(TRIG_ONE * TRIG_ONE) <= as_ * bc + ac * bs <= TRIG_ONE * TRIG_ONE,
{
    let t = TRIG_ONE as int;
    lemma_rot_product_wf(ac, as_, bc, bs);
    let p = ac * bc - as_ * bs;
    let q = as_ * bc + ac * bs;
    lemma_sq_nonneg(ac);
    lemma_sq_nonneg(as_);
    lemma_sq_nonneg(bc);
    lemma_sq_nonneg(bs);
    lemma_sq_nonneg(p);
    lemma_sq_nonneg(q);
    assert(p * p + q * q <= (t * t) * (t * t)) by (nonlinear_arith)
        requires
            p * p + q * q == (ac * ac + as_ * as_) * (bc * bc + bs * bs),
            ac * ac + as_ * as_ <= t * t,
            bc * bc + bs * bs <= t * t,
            ac * ac + as_ * as_ >= 0,
            bc * bc + bs * bs >= 0,
    ;
    assert(-(t * t) <= p <= t * t) by (nonlinear_arith)
        requires
            p * p <= (t * t) * (t * t),
            t * t >= 0,
    ;
    assert(-(t * t) <= q <= t * t) by (nonlinear_arith)
        requires
            q * q <= (t * t) * (t * t),
            t * t >= 0,
    ;
}

/// Each entry of an in-circle rotation is at most [`TRIG_ONE`] in
/// magnitude.
proof fn lemma_rot_entry_bound(c: int, s: int)
    requires
        c * c + s * s <= TRIG_ONE * TRIG_ONE,
    ensures
        -TRIG_ONE <= c <= TRIG_ONE,
        -TRIG_ONE <= s <= TRIG_ONE,
{
    let t = TRIG_ONE as int;
    assert(-t <= c <= t && -t <= s <= t) by (nonlinear_arith)
        requires
            c * c + s * s <= t * t,
            t > 0,
    ;
}

/// A truncated quotient is bounded by any bound on the dividend divided
/// by the divisor: if `|n| <= d * m` then `|tdiv(n, d)| <= m`.
pub proof fn lemma_tdiv_bound(n: int, d: int, m: int)
    requires
        d >= 1,
        m >= 0,
        absi(n) <= d * m,
    ensures
        -m <= tdiv(n, d) <= m,
        absi(tdiv(n, d)) <= m,
{
    let a = if n >= 0 {
        n
    } else {
        -n
    };
    vstd::arithmetic::div_mod::lemma_div_pos_is_pos(a, d);
    vstd::arithmetic::div_mod::lemma_div_is_ordered(a, d * m, d);
    vstd::arithmetic::div_mod::lemma_div_multiples_vanish(m, d);
    assert(a / d <= m);
}

} // verus!
