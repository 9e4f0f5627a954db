//! Fixed-point 2D affine transforms.
//!
//! Coordinates, scales and trigonometric values are carried as `i64`
//! thousandths (`FX_ONE` stands for 1.0); angles are thousandths of a
//! degree. Every operation saturates at `FX_LIMIT`, so all operations
//! are total and no intermediate computation can overflow.

use vstd::prelude::*;

verus! {

/// Fixed-point unity: values are thousandths.
pub const FX_ONE: i64 = 1000;

/// Saturation bound for every fixed-point result.
pub const FX_LIMIT: i64 = 0x100_0000_0000;

/// One full turn in thousandths of a degree.
pub const TURN_MDEG: i64 = 360000;

/// Half a turn in thousandths of a degree.
pub const HALF_TURN_MDEG: i64 = 180000;

pub open spec fn spec_abs(x: int) -> int {
    if x < 0 {
        -x
    } else {
        x
    }
}

/// Clamp an unbounded value into [-FX_LIMIT, FX_LIMIT].
pub open spec fn spec_sat(x: int) -> int {
    if x > FX_LIMIT as int {
        FX_LIMIT as int
    } else if x < -(FX_LIMIT as int) {
        -(FX_LIMIT as int)
    } else {
        x
    }
}

/// Fixed-point product: (x * y) / FX_ONE, truncated toward zero, saturated.
pub open spec fn spec_fx_mul(x: int, y: int) -> int {
    let p = (spec_abs(x) * spec_abs(y)) / (FX_ONE as int);
    if (x < 0) != (y < 0) {
        spec_sat(-p)
    } else {
        spec_sat(p)
    }
}

/// Fixed-point quotient: (x * FX_ONE) / y, truncated toward zero, saturated.
/// A zero divisor yields zero.
pub open spec fn spec_fx_div(x: int, y: int) -> int {
    if y == 0 {
        0
    } else {
        let q = (spec_abs(x) * (FX_ONE as int)) / spec_abs(y);
        if (x < 0) != (y < 0) {
            spec_sat(-q)
        } else {
            spec_sat(q)
        }
    }
}

/// Saturating sum.
pub open spec fn spec_fx_add(x: int, y: int) -> int {
    spec_sat(x + y)
}

/// Saturate an i128 intermediate into an i64 fixed-point value.
fn sat_i128(v: i128) -> (r: i64)
    ensures
        r as int == spec_sat(v as int),
{
    if v > FX_LIMIT as i128 {
        FX_LIMIT
    } else if v < -(FX_LIMIT as i128) {
        -FX_LIMIT
    } else {
        v as i64
    }
}

/// Magnitude of an i64 as u128 (total, also for i64::MIN).
fn mag_u128(x: i64) -> (r: u128)
    ensures
        r as int == spec_abs(x as int),
{
    if x < 0 {
        (-(x as i128)) as u128
    } else {
        x as u128
    }
}

/// Fixed-point multiply, saturating.
pub fn fx_mul(x: i64, y: i64) -> (r: i64)
    ensures
        r as int == spec_fx_mul(x as int, y as int),
{
    let ax = mag_u128(x);
    let ay = mag_u128(y);
    proof {
        assert(ax as int * ay as int <= 0x4000_0000_0000_0000_0000_0000_0000_0000)
            by (nonlinear_arith)
            requires
                0 <= ax as int <= 0x8000_0000_0000_0000,
                0 <= ay as int <= 0x8000_0000_0000_0000,
        ;
    }
    let p: u128 = (ax * ay) / (FX_ONE as u128);
    proof {
        vstd::arithmetic::div_mod::lemma_div_nonincreasing((ax * ay) as int, FX_ONE as int);
    }
    let neg = (x < 0) != (y < 0);
    if neg {
        sat_i128(-(p as i128))
    } else {
        sat_i128(p as i128)
    }
}

/// Fixed-point divide, saturating; zero divisor yields zero.
pub fn fx_div(x: i64, y: i64) -> (r: i64)
    ensures
        r as int == spec_fx_div(x as int, y as int),
{
    if y == 0 {
        return 0;
    }
    let ax = mag_u128(x);
    let ay = mag_u128(y);
    let q: u128 = (ax * (FX_ONE as u128)) / ay;
    let neg = (x < 0) != (y < 0);
    proof {
        assert(ax as int * (FX_ONE as int) <= 0x8000_0000_0000_0000 * 1000) by (nonlinear_arith)
            requires
                0 <= ax as int <= 0x8000_0000_0000_0000,
        ;
    }
    if neg {
        sat_i128(-(q as i128))
    } else {
        sat_i128(q as i128)
    }
}

/// Saturating addition.
pub fn fx_add(x: i64, y: i64) -> (r: i64)
    ensures
        r as int == spec_fx_add(x as int, y as int),
{
    sat_i128(x as i128 + y as i128)
}

/// Nanoseconds in one second.
pub const NANOS_PER_SECOND: i64 = 1000000000;

/// Advance of a per-second rate over a span of nanoseconds:
/// (rate * dt_ns) / NANOS_PER_SECOND, truncated toward zero, saturated.
pub open spec fn spec_fx_per_second(rate: int, dt_ns: int) -> int {
    let p = (spec_abs(rate) * spec_abs(dt_ns)) / (NANOS_PER_SECOND as int);
    if (rate < 0) != (dt_ns < 0) {
        spec_sat(-p)
    } else {
        spec_sat(p)
    }
}

/// Advance a per-second rate over a span of nanoseconds, saturating.
pub fn fx_per_second(rate: i64, dt_ns: i64) -> (r: i64)
    ensures
        r as int == spec_fx_per_second(rate as int, dt_ns as int),
{
    let ar = mag_u128(rate);
    let ad = mag_u128(dt_ns);
    proof {
        assert(ar as int * ad as int <= 0x4000_0000_0000_0000_0000_0000_0000_0000)
            by (nonlinear_arith)
            requires
                0 <= ar as int <= 0x8000_0000_0000_0000,
                0 <= ad as int <= 0x8000_0000_0000_0000,
        ;
    }
    let p: u128 = (ar * ad) / (NANOS_PER_SECOND as u128);
    proof {
        vstd::arithmetic::div_mod::lemma_div_nonincreasing((ar * ad) as int, NANOS_PER_SECOND as int);
    }
    let neg = (rate < 0) != (dt_ns < 0);
    if neg {
        sat_i128(-(p as i128))
    } else {
        sat_i128(p as i128)
    }
}

/// Saturating difference.
pub open spec fn spec_fx_sub(x: int, y: int) -> int {
    spec_sat(x - y)
}

/// Saturating subtraction.
pub fn fx_sub(x: i64, y: i64) -> (r: i64)
    ensures
        r as int == spec_fx_sub(x as int, y as int),
{
    sat_i128(x as i128 - y as i128)
}

/// Saturating negation.
pub fn fx_neg(x: i64) -> (r: i64)
    ensures
        r as int == spec_sat(-(x as int)),
{
    sat_i128(-(x as i128))
}

// --------------------------------------------------------------------
// Trigonometry in thousandths of a degree.
// --------------------------------------------------------------------

/// Normalize an angle into [0, TURN_MDEG).
pub open spec fn spec_norm_mdeg(m: int) -> int {
    if m >= 0 {
        m % (TURN_MDEG as int)
    } else {
        let r = (-m) % (TURN_MDEG as int);
        if r == 0 {
            0
        } else {
            TURN_MDEG as int - r
        }
    }
}

/// Rational sine approximation on [0, HALF_TURN_MDEG], in thousandths.
/// Exact at 0, 90 and 180 degrees.
pub open spec fn spec_sin_half(m: int) -> int {
    let t = m * (HALF_TURN_MDEG as int - m);
    4000 * t / (40500000000 - t)
}

/// Sine of an angle in thousandths of a degree, in thousandths.
pub open spec fn spec_sin_mdeg(m: int) -> int {
    let n = spec_norm_mdeg(m);
    if n <= HALF_TURN_MDEG as int {
        spec_sin_half(n)
    } else {
        -spec_sin_half(n - HALF_TURN_MDEG as int)
    }
}

/// Cosine of an angle in thousandths of a degree, in thousandths.
pub open spec fn spec_cos_mdeg(m: int) -> int {
    spec_sin_mdeg(m + 90000)
}

/// Normalize an angle into [0, TURN_MDEG).
pub fn norm_mdeg(m: i64) -> (r: i64)
    ensures
        r as int == spec_norm_mdeg(m as int),
        0 <= r < TURN_MDEG,
{
    if m >= 0 {
        ((m as u64) % (TURN_MDEG as u64)) as i64
    } else {
        let a = (-(m as i128)) as u128;
        let rem = (a % (TURN_MDEG as u128)) as i64;
        if rem == 0 {
            0
        } else {
            TURN_MDEG - rem
        }
    }
}

/// Sine on a normalized half turn.
fn sin_half(m: i64) -> (r: i64)
    requires
        0 <= m <= HALF_TURN_MDEG,
    ensures
        r as int == spec_sin_half(m as int),
        0 <= r <= FX_ONE,
{
    proof {
        assert(m as int * (HALF_TURN_MDEG as int - m as int) <= 8100000000) by (nonlinear_arith)
            requires
                0 <= m as int <= HALF_TURN_MDEG as int,
        ;
        assert(m as int * (HALF_TURN_MDEG as int - m as int) >= 0) by (nonlinear_arith)
            requires
                0 <= m as int <= HALF_TURN_MDEG as int,
        ;
    }
    let t: u64 = (m as u64) * ((HALF_TURN_MDEG - m) as u64);
    let num: u64 = 4000 * t;
    let den: u64 = 40500000000 - t;
    let q: u64 = num / den;
    proof {
        assert(4000 * (t as int) / (40500000000 - t as int) <= 1000) by (nonlinear_arith)
            requires
                0 <= t as int <= 8100000000,
        ;
    }
    q as i64
}

/// Sine of an angle in thousandths of a degree, in thousandths.
pub fn sin_mdeg(m: i64) -> (r: i64)
    ensures
        r as int == spec_sin_mdeg(m as int),
        -FX_ONE <= r <= FX_ONE,
{
    let n = norm_mdeg(m);
    if n <= HALF_TURN_MDEG {
        sin_half(n)
    } else {
        -sin_half(n - HALF_TURN_MDEG)
    }
}

/// Cosine of an angle in thousandths of a degree, in thousandths.
pub fn cos_mdeg(m: i64) -> (r: i64)
    ensures
        r as int == spec_cos_mdeg(m as int),
        -FX_ONE <= r <= FX_ONE,
{
    if m <= i64::MAX - 90000 {
        sin_mdeg(m + 90000)
    } else {
        proof {
            lemma_norm_shift_turn(m as int);
        }
        sin_mdeg(m - TURN_MDEG + 90000)
    }
}

/// Shifting an angle by a full turn does not change its normal form,
/// hence not its sine.
proof fn lemma_norm_shift_turn(m: int)
    ensures
        spec_norm_mdeg(m - TURN_MDEG as int) == spec_norm_mdeg(m),
{
    let t = TURN_MDEG as int;
    if m >= t {
        assert((m - t) % t == m % t) by (nonlinear_arith)
            requires
                m >= t > 0,
        ;
    } else if m >= 0 {
        // m - t is negative; its normal form is t - ((t - m) % t) or 0.
        assert((t - m) % t == if m == 0 { 0int } else { t - m }) by (nonlinear_arith)
            requires
                0 <= m < t,
        ;
        assert(m % t == m) by (nonlinear_arith)
            requires
                0 <= m < t,
        ;
    } else {
        assert((t - m) % t == ((-m) % t + t) % t) by (nonlinear_arith)
            requires
                m < 0 < t,
        ;
        assert(((-m) % t + t) % t == (-m) % t) by (nonlinear_arith)
            requires
                m < 0 < t,
        ;
    }
}

// --------------------------------------------------------------------
// Points and matrices.
// --------------------------------------------------------------------

/// A 2D point in fixed-point units.
#[derive(Debug, Clone, Copy, PartialEq, Eq, Structural)]
pub struct Point {
    pub x: i64,
    pub y: i64,
}

impl Point {
    pub fn new() -> (r: Point)
        ensures
            r.x == 0 && r.y == 0,
    {
        Point { x: 0, y: 0 }
    }

    pub fn from_xy(x: i64, y: i64) -> (r: Point)
        ensures
            r.x == x && r.y == y,
    {
        Point { x, y }
    }

    pub fn set_xy(&mut self, x: i64, y: i64)
        ensures
            final(self).x == x && final(self).y == y,
    {
        self.x = x;
        self.y = y;
    }
}

/// A 2D affine matrix: column layout [a c tx; b d ty; 0 0 1].
/// Linear entries are fixed-point thousandths.
#[derive(Debug, Clone, Copy, PartialEq, Eq, Structural)]
pub struct Mat3 {
    pub a: i64,
    pub b: i64,
    pub c: i64,
    pub d: i64,
    pub tx: i64,
    pub ty: i64,
}

/// The identity matrix.
pub open spec fn spec_mat_identity() -> Mat3 {
    Mat3 { a: FX_ONE, b: 0, c: 0, d: FX_ONE, tx: 0, ty: 0 }
}

/// Composition: applying `spec_mat_mul(p, l)` to a point equals applying
/// `l` first and then `p` (outer transform times local transform).
pub open spec fn spec_mat_mul(p: Mat3, l: Mat3) -> Mat3 {
    Mat3 {
        a: spec_fx_add(spec_fx_mul(p.a as int, l.a as int), spec_fx_mul(p.c as int, l.b as int))
            as i64,
        b: spec_fx_add(spec_fx_mul(p.b as int, l.a as int), spec_fx_mul(p.d as int, l.b as int))
            as i64,
        c: spec_fx_add(spec_fx_mul(p.a as int, l.c as int), spec_fx_mul(p.c as int, l.d as int))
            as i64,
        d: spec_fx_add(spec_fx_mul(p.b as int, l.c as int), spec_fx_mul(p.d as int, l.d as int))
            as i64,
        tx: spec_fx_add(
            spec_fx_add(
                spec_fx_mul(p.a as int, l.tx as int),
                spec_fx_mul(p.c as int, l.ty as int),
            ),
            p.tx as int,
        ) as i64,
        ty: spec_fx_add(
            spec_fx_add(
                spec_fx_mul(p.b as int, l.tx as int),
                spec_fx_mul(p.d as int, l.ty as int),
            ),
            p.ty as int,
        ) as i64,
    }
}

/// Applying a matrix to a point.
pub open spec fn spec_mat_apply(m: Mat3, p: Point) -> Point {
    Point {
        x: spec_fx_add(
            spec_fx_add(spec_fx_mul(m.a as int, p.x as int), spec_fx_mul(m.c as int, p.y as int)),
            m.tx as int,
        ) as i64,
        y: spec_fx_add(
            spec_fx_add(spec_fx_mul(m.b as int, p.x as int), spec_fx_mul(m.d as int, p.y as int)),
            m.ty as int,
        ) as i64,
    }
}

impl Mat3 {
    pub fn identity() -> (r: Mat3)
        ensures
            r == spec_mat_identity(),
    {
        Mat3 { a: FX_ONE, b: 0, c: 0, d: FX_ONE, tx: 0, ty: 0 }
    }

    /// Compose with a local matrix: `self` is applied after `l`.
    pub fn multiply(&self, l: &Mat3) -> (r: Mat3)
        ensures
            r == spec_mat_mul(*self, *l),
    {
        Mat3 {
            a: fx_add(fx_mul(self.a, l.a), fx_mul(self.c, l.b)),
            b: fx_add(fx_mul(self.b, l.a), fx_mul(self.d, l.b)),
            c: fx_add(fx_mul(self.a, l.c), fx_mul(self.c, l.d)),
            d: fx_add(fx_mul(self.b, l.c), fx_mul(self.d, l.d)),
            tx: fx_add(fx_add(fx_mul(self.a, l.tx), fx_mul(self.c, l.ty)), self.tx),
            ty: fx_add(fx_add(fx_mul(self.b, l.tx), fx_mul(self.d, l.ty)), self.ty),
        }
    }

    /// Transform a point.
    pub fn apply_to_point(&self, p: &Point) -> (r: Point)
        ensures
            r == spec_mat_apply(*self, *p),
    {
        Point {
            x: fx_add(fx_add(fx_mul(self.a, p.x), fx_mul(self.c, p.y)), self.tx),
            y: fx_add(fx_add(fx_mul(self.b, p.x), fx_mul(self.d, p.y)), self.ty),
        }
    }
}

/// The general inverse of an affine matrix, by the adjugate formula.
/// A singular matrix (zero determinant) inverts to the identity.
pub open spec fn spec_mat_inverse(m: Mat3) -> Mat3 {
    let det = spec_fx_sub(
        spec_fx_mul(m.a as int, m.d as int),
        spec_fx_mul(m.b as int, m.c as int),
    );
    if det == 0 {
        spec_mat_identity()
    } else {
        Mat3 {
            a: spec_fx_div(m.d as int, det) as i64,
            b: spec_fx_div(spec_sat(-(m.b as int)), det) as i64,
            c: spec_fx_div(spec_sat(-(m.c as int)), det) as i64,
            d: spec_fx_div(m.a as int, det) as i64,
            tx: spec_fx_div(
                spec_fx_sub(
                    spec_fx_mul(m.c as int, m.ty as int),
                    spec_fx_mul(m.d as int, m.tx as int),
                ),
                det,
            ) as i64,
            ty: spec_fx_div(
                spec_fx_sub(
                    spec_fx_mul(m.b as int, m.tx as int),
                    spec_fx_mul(m.a as int, m.ty as int),
                ),
                det,
            ) as i64,
        }
    }
}

impl Mat3 {
    /// The general inverse; singular matrices invert to the identity.
    pub fn inverse(&self) -> (r: Mat3)
        ensures
            r == spec_mat_inverse(*self),
    {
        let det = fx_sub(fx_mul(self.a, self.d), fx_mul(self.b, self.c));
        if det == 0 {
            Mat3::identity()
        } else {
            Mat3 {
                a: fx_div(self.d, det),
                b: fx_div(fx_neg(self.b), det),
                c: fx_div(fx_neg(self.c), det),
                d: fx_div(self.a, det),
                tx: fx_div(fx_sub(fx_mul(self.c, self.ty), fx_mul(self.d, self.tx)), det),
                ty: fx_div(fx_sub(fx_mul(self.b, self.tx), fx_mul(self.a, self.ty)), det),
            }
        }
    }
}

/// An axis-aligned bounding box over fixed-point points.
#[derive(Debug, Clone, Copy, PartialEq, Eq, Structural)]
pub struct AABBox {
    pub min: Point,
    pub max: Point,
}

impl AABBox {
    pub fn new() -> (r: AABBox)
        ensures
            r.min == (Point { x: 0, y: 0 }),
            r.max == (Point { x: 0, y: 0 }),
    {
        AABBox { min: Point::new(), max: Point::new() }
    }

    /// Shrink-wrap the box around the given vertices.
    pub fn set_from_vertices(&mut self, vertices: &Vec<Point>)
        requires
            vertices@.len() > 0,
        ensures
            forall|i: int|
                0 <= i < vertices@.len() ==> (final(self).min.x <= (#[trigger] vertices@[i]).x
                    <= final(self).max.x && final(self).min.y <= vertices@[i].y
                    <= final(self).max.y),
            exists|i: int| 0 <= i < vertices@.len() && (#[trigger] vertices@[i]).x == final(self).min.x,
            exists|i: int| 0 <= i < vertices@.len() && (#[trigger] vertices@[i]).x == final(self).max.x,
            exists|i: int| 0 <= i < vertices@.len() && (#[trigger] vertices@[i]).y == final(self).min.y,
            exists|i: int| 0 <= i < vertices@.len() && (#[trigger] vertices@[i]).y == final(self).max.y,
    {
        let first = vertices[0];
        self.min = first;
        self.max = first;
        let n = vertices.len();
        let mut i: usize = 1;
        while i < n
            invariant
                1 <= i <= n,
                n == vertices@.len(),
                forall|j: int|
                    0 <= j < i ==> self.min.x <= (#[trigger] vertices@[j]).x <= self.max.x
                        && self.min.y <= vertices@[j].y <= self.max.y,
                exists|j: int| 0 <= j < i && (#[trigger] vertices@[j]).x == self.min.x,
                exists|j: int| 0 <= j < i && (#[trigger] vertices@[j]).x == self.max.x,
                exists|j: int| 0 <= j < i && (#[trigger] vertices@[j]).y == self.min.y,
                exists|j: int| 0 <= j < i && (#[trigger] vertices@[j]).y == self.max.y,
            decreases n - i,
        {
            let p = vertices[i];
            if p.x < self.min.x {
                self.min.x = p.x;
            }
            if p.x > self.max.x {
                self.max.x = p.x;
            }
            if p.y < self.min.y {
                self.min.y = p.y;
            }
            if p.y > self.max.y {
                self.max.y = p.y;
            }
            i = i + 1;
        }
    }
}

// --------------------------------------------------------------------
// Transform components: position, rotation, nonuniform scale.
// --------------------------------------------------------------------

/// The decomposed transform of a node: position, rotation in
/// thousandths of a degree, and a nonuniform fixed-point scale.
#[derive(Debug, Clone, Copy, PartialEq, Eq, Structural)]
pub struct Transform {
    pub px: i64,
    pub py: i64,
    pub deg: i64,
    pub sx: i64,
    pub sy: i64,
}

impl Transform {
    pub fn new() -> (r: Transform)
        ensures
            r == spec_transform_identity(),
    {
        Transform { px: 0, py: 0, deg: 0, sx: FX_ONE, sy: FX_ONE }
    }
}

pub open spec fn spec_transform_identity() -> Transform {
    Transform { px: 0, py: 0, deg: 0, sx: FX_ONE, sy: FX_ONE }
}

/// The matrix translate(p) * rotate(deg) * scale(s) of a transform.
pub open spec fn spec_mat_of_transform(t: Transform) -> Mat3 {
    let s = spec_sin_mdeg(t.deg as int);
    let c = spec_cos_mdeg(t.deg as int);
    Mat3 {
        a: spec_fx_mul(c, t.sx as int) as i64,
        b: spec_fx_mul(s, t.sx as int) as i64,
        c: spec_fx_mul(-s, t.sy as int) as i64,
        d: spec_fx_mul(c, t.sy as int) as i64,
        tx: t.px,
        ty: t.py,
    }
}

/// The inverse matrix scale(1/s) * rotate(-deg) * translate(-p) of a
/// transform. A zero scale component makes the transform singular; the
/// inverse is then defined as the identity.
pub open spec fn spec_inv_of_transform(t: Transform) -> Mat3 {
    if t.sx == 0 || t.sy == 0 {
        spec_mat_identity()
    } else {
        let s = spec_sin_mdeg(t.deg as int);
        let c = spec_cos_mdeg(t.deg as int);
        Mat3 {
            a: spec_fx_div(c, t.sx as int) as i64,
            b: spec_fx_div(-s, t.sy as int) as i64,
            c: spec_fx_div(s, t.sx as int) as i64,
            d: spec_fx_div(c, t.sy as int) as i64,
            tx: spec_sat(
                -spec_fx_div(
                    spec_fx_add(
                        spec_fx_mul(c, t.px as int),
                        spec_fx_mul(s, t.py as int),
                    ),
                    t.sx as int,
                ),
            ) as i64,
            ty: spec_sat(
                -spec_fx_div(
                    spec_fx_add(
                        spec_fx_mul(-s, t.px as int),
                        spec_fx_mul(c, t.py as int),
                    ),
                    t.sy as int,
                ),
            ) as i64,
        }
    }
}

/// Compute the matrix of a transform.
pub fn mat_of_transform(t: &Transform) -> (r: Mat3)
    ensures
        r == spec_mat_of_transform(*t),
{
    let s = sin_mdeg(t.deg);
    let c = cos_mdeg(t.deg);
    Mat3 {
        a: fx_mul(c, t.sx),
        b: fx_mul(s, t.sx),
        c: fx_mul(-s, t.sy),
        d: fx_mul(c, t.sy),
        tx: t.px,
        ty: t.py,
    }
}

/// Compute the inverse matrix of a transform.
pub fn inv_of_transform(t: &Transform) -> (r: Mat3)
    ensures
        r == spec_inv_of_transform(*t),
{
    if t.sx == 0 || t.sy == 0 {
        return Mat3::identity();
    }
    let s = sin_mdeg(t.deg);
    let c = cos_mdeg(t.deg);
    Mat3 {
        a: fx_div(c, t.sx),
        b: fx_div(-s, t.sy),
        c: fx_div(s, t.sx),
        d: fx_div(c, t.sy),
        tx: fx_neg(fx_div(fx_add(fx_mul(c, t.px), fx_mul(s, t.py)), t.sx)),
        ty: fx_neg(fx_div(fx_add(fx_mul(-s, t.px), fx_mul(c, t.py)), t.sy)),
    }
}

} // verus!
