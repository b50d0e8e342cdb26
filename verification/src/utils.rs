//! Geometry primitives: integer 2D vectors, fixed-point trigonometry,
//! and the `ViewCone` perception shape.
//!
//! Direction vectors are scaled by `DIR_SCALE` (1000); angles are in
//! tenths of a degree, counterclockwise from the positive y axis, so a
//! heading of 0 points straight up and 900 points along the negative
//! x axis.

use vstd::prelude::*;

use crate::constants::COORD_LIMIT;
use crate::constants::DEGREES_180;
use crate::constants::DEGREES_270;
use crate::constants::DEGREES_360;
use crate::constants::DEGREES_90;
use crate::constants::DIR_SCALE;

verus! {

/// A 2D vector (or point) with integer coordinates.
#[derive(Clone, Copy, PartialEq, Eq, Structural, Debug)]
pub struct Vec2i {
    pub x: i64,
    pub y: i64,
}

impl Vec2i {
    /// Both coordinates are small enough that sums of two squared
    /// distances stay well inside `i64`.
    pub open spec fn bounded(self, limit: int) -> bool {
        -limit <= self.x <= limit && -limit <= self.y <= limit
    }

    pub fn new(x: i64, y: i64) -> (v: Vec2i)
        ensures
            v.x == x && v.y == y,
    {
        Vec2i { x, y }
    }

    pub open spec fn spec_zero() -> Vec2i {
        Vec2i { x: 0, y: 0 }
    }

    pub fn zero() -> (v: Vec2i)
        ensures
            v == Vec2i::spec_zero(),
    {
        Vec2i { x: 0, y: 0 }
    }
}

/// Squared Euclidean distance between two points, as a mathematical
/// integer.
pub open spec fn dist_sq(a: Vec2i, b: Vec2i) -> int {
    (a.x - b.x) * (a.x - b.x) + (a.y - b.y) * (a.y - b.y)
}

/// The square of a number.
pub fn square(x: i64) -> (r: i64)
    requires
        -3_000_000 <= x <= 3_000_000,
    ensures
        r == x * x,
{
    proof {
        assert(-9_000_000_000_000 <= x * x <= 9_000_000_000_000) by (nonlinear_arith)
            requires
                -3_000_000 <= x <= 3_000_000,
        ;
    }
    x * x
}

/// Squared distance between two bounded points, computed in `i64`.
pub fn distance_squared(a: Vec2i, b: Vec2i) -> (r: i64)
    requires
        a.bounded(2 * COORD_LIMIT as int),
        b.bounded(2 * COORD_LIMIT as int),
    ensures
        r == dist_sq(a, b),
        0 <= r <= 32_000_000_000_000,
{
    let dx: i64 = a.x - b.x;
    let dy: i64 = a.y - b.y;
    proof {
        assert(dx * dx <= 16_000_000_000_000 && dx * dx >= 0) by (nonlinear_arith)
            requires
                -4_000_000 <= dx <= 4_000_000,
        ;
        assert(dy * dy <= 16_000_000_000_000 && dy * dy >= 0) by (nonlinear_arith)
            requires
                -4_000_000 <= dy <= 4_000_000,
        ;
    }
    dx * dx + dy * dy
}

/// Magnitude of a (not too negative) `i64`, as a `u64`.
fn abs_u64(a: i64) -> (r: u64)
    requires
        a != i64::MIN,
    ensures
        r == if a >= 0 { a as int } else { -a as int },
{
    if a >= 0 {
        a as u64
    } else {
        (-a) as u64
    }
}

/// Floor division of `a` by a positive `b`; agrees with mathematical
/// (Euclidean) division for positive divisors.
pub fn floor_div(a: i64, b: i64) -> (r: i64)
    requires
        1 <= b,
        -0x4000_0000_0000_0000 <= a <= 0x4000_0000_0000_0000,
    ensures
        r == a as int / b as int,
{
    if a >= 0 {
        let q: u64 = (a as u64) / (b as u64);
        proof {
            vstd::arithmetic::div_mod::lemma_fundamental_div_mod(a as int, b as int);
        }
        q as i64
    } else {
        let na: u64 = (-a) as u64;
        let q: u64 = (na + (b as u64) - 1) / (b as u64);
        proof {
            lemma_neg_ceil_is_floor(a as int, b as int);
            assert(na as int + b - 1 <= na as int * b) by (nonlinear_arith)
                requires
                    1 <= na as int,
                    1 <= b,
            ;
            vstd::arithmetic::div_mod::lemma_div_is_ordered(
                na as int + b - 1,
                na as int * b,
                b as int,
            );
            vstd::arithmetic::div_mod::lemma_div_by_multiple(na as int, b as int);
            assert(q <= na);
        }
        -(q as i64)
    }
}

/// For a negative dividend and positive divisor, floor division is the
/// negated rounded-up division of the magnitudes.
proof fn lemma_neg_ceil_is_floor(a: int, b: int)
    requires
        a < 0,
        1 <= b,
    ensures
        a / b == -((-a + b - 1) / b),
{
    vstd::arithmetic::div_mod::lemma_fundamental_div_mod(a, b);
    vstd::arithmetic::div_mod::lemma_fundamental_div_mod(-a + b - 1, b);
    let q: int = a / b;
    let m: int = a % b;
    let q2: int = (-a + b - 1) / b;
    let m2: int = (-a + b - 1) % b;
    assert(q2 == -q) by (nonlinear_arith)
        requires
            a == b * q + m,
            0 <= m < b,
            -a + b - 1 == b * q2 + m2,
            0 <= m2 < b,
            1 <= b,
    ;
}

/// Division of `a` by a positive `b` rounded toward zero, as Rust's
/// primitive division behaves.
pub open spec fn trunc_div(a: int, b: int) -> int {
    if a >= 0 {
        a / b
    } else {
        -((-a) / b)
    }
}

/// Truncating division by a positive divisor.
pub fn div_toward_zero(a: i64, b: i64) -> (r: i64)
    requires
        1 <= b,
        -0x4000_0000_0000_0000 <= a <= 0x4000_0000_0000_0000,
    ensures
        r == trunc_div(a as int, b as int),
        0 <= r <= a || a <= r <= 0,
{
    let na: u64 = abs_u64(a);
    let q: u64 = na / (b as u64);
    proof {
        vstd::arithmetic::div_mod::lemma_fundamental_div_mod(na as int, b as int);
        assert(q <= na) by {
            vstd::arithmetic::div_mod::lemma_div_nonincreasing(na as int, b as int);
        }
    }
    if a >= 0 {
        q as i64
    } else {
        -(q as i64)
    }
}

/// Floor of the square root: the greatest `r` with `r * r <= n`.
pub fn isqrt(n: u64) -> (r: u64)
    ensures
        r * r <= n < (r + 1) * (r + 1),
        r <= 0xFFFF_FFFF,
{
    let mut lo: u64 = 0;
    let mut hi: u64 = 0xFFFF_FFFF;
    proof {
        assert((hi + 1) * (hi + 1) > n) by (nonlinear_arith)
            requires
                hi == 0xFFFF_FFFFu64,
                n <= u64::MAX,
        ;
    }
    while lo < hi
        invariant
            lo <= hi <= 0xFFFF_FFFF,
            lo * lo <= n,
            (hi + 1) * (hi + 1) > n,
        decreases hi - lo,
    {
        let mid: u64 = lo + (hi - lo + 1) / 2;
        assert(lo < mid <= hi);
        proof {
            assert(mid * mid <= 0xFFFF_FFFE_0000_0001) by (nonlinear_arith)
                requires
                    mid <= 0xFFFF_FFFFu64,
            ;
        }
        if mid * mid <= n {
            lo = mid;
        } else {
            hi = mid - 1;
        }
    }
    lo
}

/// Mathematical floor of the square root, defined by counting up;
/// zero for negative arguments.
pub open spec fn spec_isqrt(n: int) -> int
    decreases n,
{
    if n <= 0 {
        0
    } else {
        let r = spec_isqrt(n - 1);
        if (r + 1) * (r + 1) <= n {
            r + 1
        } else {
            r
        }
    }
}

/// `spec_isqrt` satisfies the defining bounds of the integer square
/// root.
pub proof fn lemma_spec_isqrt_bounds(n: int)
    requires
        0 <= n,
    ensures
        0 <= spec_isqrt(n),
        spec_isqrt(n) * spec_isqrt(n) <= n,
        n < (spec_isqrt(n) + 1) * (spec_isqrt(n) + 1),
    decreases n,
{
    if n > 0 {
        lemma_spec_isqrt_bounds(n - 1);
        let r = spec_isqrt(n - 1);
        if (r + 1) * (r + 1) <= n {
            assert(spec_isqrt(n) == r + 1);
            assert(n < (r + 1 + 1) * (r + 1 + 1)) by (nonlinear_arith)
                requires
                    n <= (r + 1) * (r + 1),
                    0 <= r,
            ;
        } else {
            assert(spec_isqrt(n) == r);
            assert(r * r <= n - 1);
        }
    }
}

/// The sine approximation on a half turn: for `x` in tenths of a
/// degree in `[0, 1800]`, a rational approximation of
/// `1000 * sin(x)`, exact at 0, 900 and 1800.
pub open spec fn half_sine_milli(x: int) -> int {
    4000 * (x * (1800 - x)) / (4050000 - x * (1800 - x))
}

/// `1000 * sin(a)` for an angle `a` in tenths of a degree in
/// `[0, 3600)`.
pub open spec fn spec_sin_milli(a: int) -> int {
    if a <= 1800 {
        half_sine_milli(a)
    } else {
        -half_sine_milli(a - 1800)
    }
}

/// `1000 * cos(a)` for an angle `a` in tenths of a degree in
/// `[0, 3600)`.
pub open spec fn spec_cos_milli(a: int) -> int {
    spec_sin_milli((a + 900) % 3600)
}

/// The sine approximation on `[0, 1800]`, computed in `u64`.
fn half_sine_milli_exec(x: u64) -> (r: u64)
    requires
        x <= 1800,
    ensures
        r == half_sine_milli(x as int),
        r <= 1000,
{
    proof {
        assert(0 <= x * (1800 - x) <= 810_000) by (nonlinear_arith)
            requires
                0 <= x <= 1800,
        ;
    }
    let u: u64 = x * (1800 - x);
    let num: u64 = 4000 * u;
    let den: u64 = 4_050_000 - u;
    let r: u64 = num / den;
    proof {
        assert(num <= 1000 * den);
        vstd::arithmetic::div_mod::lemma_div_is_ordered(
            num as int,
            1000 * den as int,
            den as int,
        );
        vstd::arithmetic::div_mod::lemma_div_by_multiple(1000, den as int);
    }
    r
}

/// `1000 * sin(a)`, in tenths of a degree.
pub fn sin_milli(a: u32) -> (r: i64)
    requires
        a < DEGREES_360,
    ensures
        r == spec_sin_milli(a as int),
        -1000 <= r <= 1000,
{
    if a <= DEGREES_180 {
        half_sine_milli_exec(a as u64) as i64
    } else {
        -(half_sine_milli_exec((a - DEGREES_180) as u64) as i64)
    }
}

/// `1000 * cos(a)`, in tenths of a degree.
pub fn cos_milli(a: u32) -> (r: i64)
    requires
        a < DEGREES_360,
    ensures
        r == spec_cos_milli(a as int),
        -1000 <= r <= 1000,
{
    let b: u32 = if a < DEGREES_270 {
        a + DEGREES_90
    } else {
        a - DEGREES_270
    };
    proof {
        if a < DEGREES_270 {
            vstd::arithmetic::div_mod::lemma_small_mod((a + 900) as nat, 3600nat);
        } else {
            vstd::arithmetic::div_mod::lemma_fundamental_div_mod_converse_mod(
                a as int + 900,
                3600,
                1,
                a as int - 2700,
            );
        }
    }
    sin_milli(b)
}

/// The unit direction vector (scaled by `DIR_SCALE`) of a heading
/// angle: heading 0 points along positive y, and angles grow
/// counterclockwise.
pub fn dir_milli(a: u32) -> (v: Vec2i)
    requires
        a < DEGREES_360,
    ensures
        v.x == -spec_sin_milli(a as int),
        v.y == spec_cos_milli(a as int),
        v.bounded(DIR_SCALE as int),
{
    let x: i64 = -sin_milli(a);
    let y: i64 = cos_milli(a);
    Vec2i { x, y }
}

/// The heading angle of a nonzero vector, in tenths of a degree:
/// piecewise-linear within each quadrant, exact on the axes, and
/// consistent with `dir_milli`'s orientation (counterclockwise from
/// positive y).
pub open spec fn spec_direction_angle(x: int, y: int) -> int {
    if x == 0 && y == 0 {
        0
    } else if x <= 0 && y > 0 {
        900 * (-x) / (-x + y)
    } else if x < 0 && y <= 0 {
        900 + 900 * (-y) / (-x + -y)
    } else if x >= 0 && y < 0 {
        1800 + 900 * x / (x + -y)
    } else {
        2700 + 900 * y / (x + y)
    }
}

/// The heading angle of a vector; the zero vector maps to heading 0.
pub fn direction_angle(v: Vec2i) -> (r: u32)
    requires
        v.bounded(1_000_000_000),
    ensures
        r == spec_direction_angle(v.x as int, v.y as int),
        r < DEGREES_360,
{
    let x: i64 = v.x;
    let y: i64 = v.y;
    if x == 0 && y == 0 {
        0
    } else if x <= 0 && y > 0 {
        quadrant_offset(-x, y)
    } else if x < 0 && y <= 0 {
        DEGREES_90 + quadrant_offset(-y, -x)
    } else if x >= 0 && y < 0 {
        DEGREES_180 + quadrant_offset(x, -y)
    } else {
        DEGREES_270 + quadrant_offset(y, x)
    }
}

/// One component of a vector rescaled to length about `DIR_SCALE`,
/// rounding toward zero: `1000 * c` divided by the vector's length.
/// The zero vector stays zero.
pub open spec fn spec_norm_component(c: int, other: int) -> int {
    if c == 0 && other == 0 {
        0
    } else {
        trunc_div(1000 * c, spec_isqrt(c * c + other * other))
    }
}

/// Rescales a vector to length about `DIR_SCALE` (1000), rounding
/// each component toward zero; the zero vector stays zero rather than
/// dividing by a vanishing length.
pub fn normalize_or_zero(v: Vec2i) -> (r: Vec2i)
    requires
        v.bounded(2 * COORD_LIMIT as int),
    ensures
        r.x == spec_norm_component(v.x as int, v.y as int),
        r.y == spec_norm_component(v.y as int, v.x as int),
        r.bounded(DIR_SCALE as int),
        (r.x == 0 && r.y == 0) <==> (v.x == 0 && v.y == 0),
{
    if v.x == 0 && v.y == 0 {
        Vec2i { x: 0, y: 0 }
    } else {
        let n2: i64 = distance_squared(v, Vec2i { x: 0, y: 0 });
        proof {
            assert(1 <= n2 <= 8_000_000_000_000) by (nonlinear_arith)
                requires
                    n2 as int == v.x * v.x + v.y * v.y,
                    -2_000_000 <= v.x <= 2_000_000,
                    -2_000_000 <= v.y <= 2_000_000,
                    !(v.x == 0 && v.y == 0),
            ;
        }
        let l: u64 = isqrt(n2 as u64);
        proof {
            lemma_spec_isqrt_bounds(n2 as int);
            assert(l == spec_isqrt(n2 as int)) by (nonlinear_arith)
                requires
                    l * l <= (n2 as int) && (n2 as int) < (l + 1) * (l + 1),
                    0 <= spec_isqrt(n2 as int),
                    spec_isqrt(n2 as int) * spec_isqrt(n2 as int) <= (n2 as int),
                    (n2 as int) < (spec_isqrt(n2 as int) + 1) * (spec_isqrt(n2 as int) + 1),
            ;
            assert(1 <= l as int <= 3_000_000) by (nonlinear_arith)
                requires
                    l * l <= (n2 as int) && (n2 as int) < (l + 1) * (l + 1),
                    1 <= n2 <= 8_000_000_000_000,
            ;
            assert(-(l as int) <= v.x <= l as int && -(l as int) <= v.y <= l as int)
                by (nonlinear_arith)
                requires
                    n2 as int == v.x * v.x + v.y * v.y,
                    l * l <= (n2 as int) && (n2 as int) < (l + 1) * (l + 1),
                    0 <= l,
            ;
        }
        let rx: i64 = div_toward_zero(1000 * v.x, l as i64);
        let ry: i64 = div_toward_zero(1000 * v.y, l as i64);
        proof {
            lemma_norm_component_bounds(v.x as int, l as int);
            lemma_norm_component_bounds(v.y as int, l as int);
            lemma_norm_nonzero(v.x as int, v.y as int, l as int);
        }
        Vec2i { x: rx, y: ry }
    }
}

/// A component no longer than the vector's length rescales to at most
/// `DIR_SCALE` in magnitude.
proof fn lemma_norm_component_bounds(c: int, l: int)
    requires
        1 <= l,
        -l <= c <= l,
    ensures
        -1000 <= trunc_div(1000 * c, l) <= 1000,
{
    if c >= 0 {
        vstd::arithmetic::div_mod::lemma_div_is_ordered(1000 * c, 1000 * l, l);
        vstd::arithmetic::div_mod::lemma_div_by_multiple(1000, l);
        vstd::arithmetic::div_mod::lemma_div_pos_is_pos(1000 * c, l);
    } else {
        vstd::arithmetic::div_mod::lemma_div_is_ordered(1000 * (-c), 1000 * l, l);
        vstd::arithmetic::div_mod::lemma_div_by_multiple(1000, l);
        vstd::arithmetic::div_mod::lemma_div_pos_is_pos(1000 * (-c), l);
    }
}

/// A component whose thousandfold magnitude reaches the length
/// rescales to a nonzero value.
proof fn lemma_norm_component_nonzero(c: int, l: int)
    requires
        1 <= l,
        l <= 1000 * c || l <= 1000 * (-c),
    ensures
        trunc_div(1000 * c, l) != 0,
{
    if c >= 0 {
        vstd::arithmetic::div_mod::lemma_div_is_ordered(l, 1000 * c, l);
        vstd::arithmetic::div_mod::lemma_div_by_self(l);
    } else {
        vstd::arithmetic::div_mod::lemma_div_is_ordered(l, 1000 * (-c), l);
        vstd::arithmetic::div_mod::lemma_div_by_self(l);
    }
}

/// Rescaling a nonzero vector by its own length leaves some nonzero
/// component.
proof fn lemma_norm_nonzero(x: int, y: int, l: int)
    requires
        1 <= l,
        l * l <= x * x + y * y,
        !(x == 0 && y == 0),
    ensures
        trunc_div(1000 * x, l) != 0 || trunc_div(1000 * y, l) != 0,
{
    let mx: int = if x >= 0 {
        x
    } else {
        -x
    };
    let my: int = if y >= 0 {
        y
    } else {
        -y
    };
    let m: int = if mx >= my {
        mx
    } else {
        my
    };
    assert(l <= 1000 * m) by (nonlinear_arith)
        requires
            l * l <= x * x + y * y,
            1 <= l,
            -m <= x <= m,
            -m <= y <= m,
            1 <= m,
    ;
    if mx >= my {
        lemma_norm_component_nonzero(x, l);
    } else {
        lemma_norm_component_nonzero(y, l);
    }
}

/// Within one quadrant, the angle away from the `v` axis of the
/// direction `(u, v)`, linear in `u / (u + v)`; at most 899 when the
/// other component is positive.
fn quadrant_offset(u: i64, w: i64) -> (r: u32)
    requires
        0 <= u <= 1_000_000_000,
        1 <= w <= 1_000_000_000,
    ensures
        r == 900 * (u as int) / (u as int + w as int),
        r < DEGREES_90,
{
    let num: u64 = 900 * (u as u64);
    let den: u64 = (u as u64) + (w as u64);
    let q: u64 = num / den;
    proof {
        vstd::arithmetic::div_mod::lemma_div_pos_is_pos(num as int, den as int);
        vstd::arithmetic::div_mod::lemma_multiply_divide_lt(num as int, den as int, 900);
    }
    q as u32
}

/// A circular-sector field of perception: an apex, a radius, a full
/// opening angle, and a base direction turned by a heading angle.
#[derive(Clone, Copy, Debug)]
pub struct ViewCone {
    pub center: Vec2i,
    pub rotation: u32,
    pub radius: i64,
    pub view_angle: u32,
    pub segments: usize,
    pub direction: Vec2i,
}

impl ViewCone {
    /// Geometric sanity of a cone: bounded apex and radius, angles in
    /// range, base direction no longer than a scaled unit vector.
    pub open spec fn wf(self) -> bool {
        &&& self.center.bounded(COORD_LIMIT as int)
        &&& 0 <= self.radius <= COORD_LIMIT
        &&& self.view_angle <= DEGREES_360
        &&& self.rotation < DEGREES_360
        &&& self.direction.bounded(DIR_SCALE as int)
    }

    /// A fresh cone looking along the base direction (positive y)
    /// turned by `rotation`.
    pub fn new(center: Vec2i, radius: i64, view_angle: u32, rotation: u32) -> (cone: ViewCone)
        requires
            center.bounded(COORD_LIMIT as int),
            0 <= radius <= COORD_LIMIT,
            view_angle <= DEGREES_360,
            rotation < DEGREES_360,
        ensures
            cone.center == center,
            cone.radius == radius,
            cone.view_angle == view_angle,
            cone.rotation == rotation,
            cone.direction == (Vec2i { x: 0, y: DIR_SCALE }),
            cone.segments == 50,
            cone.wf(),
    {
        ViewCone {
            center,
            radius,
            view_angle,
            segments: 50,
            direction: Vec2i { x: 0, y: DIR_SCALE },
            rotation,
        }
    }

    /// Sets how many straight segments a renderer should use for the
    /// arc; purely observational.
    pub fn segments(&mut self, segments: usize)
        ensures
            *final(self) == (ViewCone { segments, ..*old(self) }),
    {
        self.segments = segments;
    }

    /// Re-aims the base direction at the (normalized) given vector.
    pub fn rotate_to(&mut self, direction: Vec2i)
        requires
            old(self).wf(),
            direction.bounded(COORD_LIMIT as int),
            !(direction.x == 0 && direction.y == 0),
        ensures
            final(self).direction.x == spec_norm_component(direction.x as int, direction.y as int),
            final(self).direction.y == spec_norm_component(direction.y as int, direction.x as int),
            *final(self) == (ViewCone { direction: final(self).direction, ..*old(self) }),
            final(self).wf(),
    {
        self.direction = normalize_or_zero(direction);
    }

    /// The x component of the base direction turned counterclockwise
    /// by the angle `a`.
    pub open spec fn spec_dir_at_x(self, a: int) -> int {
        trunc_div(
            self.direction.x * spec_cos_milli(a) - self.direction.y * spec_sin_milli(a),
            1000,
        )
    }

    /// The y component of the base direction turned counterclockwise
    /// by the angle `a`.
    pub open spec fn spec_dir_at_y(self, a: int) -> int {
        trunc_div(
            self.direction.x * spec_sin_milli(a) + self.direction.y * spec_cos_milli(a),
            1000,
        )
    }

    /// The x component of the direction the cone is facing: the base
    /// direction turned counterclockwise by the heading angle.
    pub open spec fn spec_heading_x(self) -> int {
        self.spec_dir_at_x(self.rotation as int)
    }

    /// The y component of the direction the cone is facing.
    pub open spec fn spec_heading_y(self) -> int {
        self.spec_dir_at_y(self.rotation as int)
    }

    /// The base direction turned counterclockwise by the angle `a`,
    /// scaled by about `DIR_SCALE`.
    pub fn direction_at(&self, a: u32) -> (d: Vec2i)
        requires
            self.wf(),
            a < DEGREES_360,
        ensures
            d.x == self.spec_dir_at_x(a as int),
            d.y == self.spec_dir_at_y(a as int),
            d.bounded(2000),
    {
        let s: i64 = sin_milli(a);
        let c: i64 = cos_milli(a);
        proof {
            assert(-1_000_000 <= self.direction.x * c <= 1_000_000 && -1_000_000
                <= self.direction.y * s <= 1_000_000 && -1_000_000 <= self.direction.x * s
                <= 1_000_000 && -1_000_000 <= self.direction.y * c <= 1_000_000)
                by (nonlinear_arith)
                requires
                    -1000 <= self.direction.x <= 1000,
                    -1000 <= self.direction.y <= 1000,
                    -1000 <= s <= 1000,
                    -1000 <= c <= 1000,
            ;
        }
        let nx: i64 = self.direction.x * c - self.direction.y * s;
        let ny: i64 = self.direction.x * s + self.direction.y * c;
        let dx: i64 = div_toward_zero(nx, 1000);
        let dy: i64 = div_toward_zero(ny, 1000);
        Vec2i { x: dx, y: dy }
    }

    /// The direction the cone is facing, scaled by about `DIR_SCALE`.
    pub fn heading_vector(&self) -> (hv: Vec2i)
        requires
            self.wf(),
        ensures
            hv.x == self.spec_heading_x(),
            hv.y == self.spec_heading_y(),
            hv.bounded(2000),
    {
        self.direction_at(self.rotation)
    }

    /// The scaled cosine of half the opening angle, against which the
    /// angular test compares.
    pub open spec fn spec_half_angle_cos(self) -> int {
        spec_cos_milli((self.view_angle / 2) as int)
    }

    /// Whether the cone contains the point: the point lies within
    /// `radius + area` of the apex, and the angle between the facing
    /// direction and the direction to the point is at most half the
    /// opening angle (compared through scaled cosines, squared to
    /// avoid square roots).
    pub open spec fn spec_contains(self, point: Vec2i, area: int) -> bool {
        &&& dist_sq(point, self.center) <= (self.radius + area) * (self.radius + area)
        &&& spec_sees_direction(
            self.spec_heading_x(),
            self.spec_heading_y(),
            point.x - self.center.x,
            point.y - self.center.y,
            self.spec_half_angle_cos(),
        )
    }

    /// Whether a candidate of radius `area` at `point` is visible.
    pub fn contains(&self, point: Vec2i, area: i64) -> (r: bool)
        requires
            self.wf(),
            point.bounded(COORD_LIMIT as int),
            0 <= area <= COORD_LIMIT,
        ensures
            r == self.spec_contains(point, area as int),
    {
        let d2: i64 = distance_squared(point, self.center);
        let rad: i64 = self.radius + area;
        proof {
            assert(0 <= rad * rad <= 4_000_000_000_000) by (nonlinear_arith)
                requires
                    0 <= rad <= 2_000_000,
            ;
        }
        if d2 > rad * rad {
            return false;
        }
        let hv = self.heading_vector();
        let half: u32 = self.view_angle / 2;
        let c: i64 = cos_milli(half);
        let tx: i64 = point.x - self.center.x;
        let ty: i64 = point.y - self.center.y;
        proof {
            assert(-4_000_000_000 <= (hv.x as int) * (tx as int) <= 4_000_000_000
                && -4_000_000_000 <= (hv.y as int) * (ty as int) <= 4_000_000_000)
                by (nonlinear_arith)
                requires
                    -2000 <= hv.x <= 2000,
                    -2000 <= hv.y <= 2000,
                    -2_000_000 <= tx <= 2_000_000,
                    -2_000_000 <= ty <= 2_000_000,
            ;
        }
        let dot: i128 = (hv.x as i128) * (tx as i128) + (hv.y as i128) * (ty as i128);
        proof {
            assert(0 <= dot * dot <= 0x4000_0000_0000_0000_0000_0000) by (nonlinear_arith)
                requires
                    -8_000_000_000 <= dot <= 8_000_000_000,
            ;
        }
        let lhs: i128 = 1_000_000 * (dot * dot);
        proof {
            assert(0 <= (hv.x as i128) * (hv.x as i128) <= 4_000_000 && 0 <= (hv.y as i128) * (
            hv.y as i128) <= 4_000_000 && 0 <= (tx as i128) * (tx as i128) <= 4_000_000_000_000
                && 0 <= (ty as i128) * (ty as i128) <= 4_000_000_000_000 && 0 <= (c as i128) * (
            c as i128) <= 1_000_000) by (nonlinear_arith)
                requires
                    -2000 <= hv.x <= 2000,
                    -2000 <= hv.y <= 2000,
                    -2_000_000 <= tx <= 2_000_000,
                    -2_000_000 <= ty <= 2_000_000,
                    -1000 <= c <= 1000,
            ;
        }
        let h2: i128 = (hv.x as i128) * (hv.x as i128) + (hv.y as i128) * (hv.y as i128);
        let t2: i128 = (tx as i128) * (tx as i128) + (ty as i128) * (ty as i128);
        let cc: i128 = (c as i128) * (c as i128);
        proof {
            assert(0 <= cc * h2 <= 8_000_000_000_000) by (nonlinear_arith)
                requires
                    0 <= cc <= 1_000_000,
                    0 <= h2 <= 8_000_000,
            ;
            assert(0 <= (cc * h2) * t2 <= 0x4000_0000_0000_0000_0000_0000) by (nonlinear_arith)
                requires
                    0 <= cc * h2 <= 8_000_000_000_000,
                    0 <= t2 <= 8_000_000_000_000,
            ;
        }
        let rhs: i128 = (cc * h2) * t2;
        if c >= 0 {
            dot >= 0 && lhs >= rhs
        } else {
            dot >= 0 || lhs <= rhs
        }
    }

    /// The heading angle of the `i`-th sample of the cone's arc, from
    /// the left edge (heading minus the half angle) to the right edge
    /// in `segments` equal steps.
    pub open spec fn spec_arc_angle(self, i: int) -> int {
        (self.rotation + 3600 - self.view_angle / 2 + i * (self.view_angle as int
            / self.segments as int)) % 3600
    }

    /// The x coordinate of the point of the arc at angle `a`: the
    /// apex displaced by `radius` along the turned base direction.
    pub open spec fn spec_arc_point_x(self, a: int) -> int {
        self.center.x + trunc_div(self.radius * self.spec_dir_at_x(a), 1000)
    }

    /// The y coordinate of the point of the arc at angle `a`.
    pub open spec fn spec_arc_point_y(self, a: int) -> int {
        self.center.y + trunc_div(self.radius * self.spec_dir_at_y(a), 1000)
    }

    /// The polyline a renderer draws the cone's arc with:
    /// `segments + 1` sample points from one edge of the cone to the
    /// other; the first and last are also the far ends of the two
    /// straight edge lines from the apex. Purely observational.
    pub fn arc_points(&self) -> (out: Vec<Vec2i>)
        requires
            self.wf(),
            1 <= self.segments <= 10_000,
        ensures
            out@.len() == self.segments + 1,
            forall|i: int|
                0 <= i <= self.segments ==> (#[trigger] out@[i]).x == self.spec_arc_point_x(
                    self.spec_arc_angle(i),
                ) && out@[i].y == self.spec_arc_point_y(self.spec_arc_angle(i)),
    {
        let step: u32 = self.view_angle / (self.segments as u32);
        let base: u32 = self.rotation + 3600 - self.view_angle / 2;
        let mut out: Vec<Vec2i> = Vec::new();
        let mut i: usize = 0;
        #[verifier::loop_isolation(false)]
        while i <= self.segments
            invariant
                i <= self.segments + 1,
                out@.len() == i,
                forall|j: int|
                    0 <= j < i ==> (#[trigger] out@[j]).x == self.spec_arc_point_x(
                        self.spec_arc_angle(j),
                    ) && out@[j].y == self.spec_arc_point_y(self.spec_arc_angle(j)),
            decreases self.segments + 1 - i,
        {
            proof {
                assert(i * step <= 10_000 * 3600) by (nonlinear_arith)
                    requires
                        0 <= i as int <= 10_000,
                        0 <= step as int <= 3600,
                ;
            }
            let a: u32 = (base + (i as u32) * step) % 3600;
            let d = self.direction_at(a);
            proof {
                assert(-2_000_000_000 <= self.radius * d.x <= 2_000_000_000 && -2_000_000_000
                    <= self.radius * d.y <= 2_000_000_000) by (nonlinear_arith)
                    requires
                        0 <= self.radius <= 1_000_000,
                        -2000 <= d.x <= 2000,
                        -2000 <= d.y <= 2000,
                ;
            }
            let px: i64 = self.center.x + div_toward_zero(self.radius * d.x, 1000);
            let py: i64 = self.center.y + div_toward_zero(self.radius * d.y, 1000);
            out.push(Vec2i { x: px, y: py });
            i = i + 1;
        }
        out
    }
}

/// The angular half of the containment test, on a candidate offset
/// `(tx, ty)` from the apex: the cosine of the angle between the
/// facing direction `(hx, hy)` and the offset is at least `c` (in
/// thousandths), stated with squares so no square root is needed.
pub open spec fn spec_sees_direction(hx: int, hy: int, tx: int, ty: int, c: int) -> bool {
    let dot = hx * tx + hy * ty;
    if c >= 0 {
        dot >= 0 && 1_000_000 * (dot * dot) >= ((c * c) * (hx * hx + hy * hy)) * (tx * tx + ty
            * ty)
    } else {
        dot >= 0 || 1_000_000 * (dot * dot) <= ((c * c) * (hx * hx + hy * hy)) * (tx * tx + ty
            * ty)
    }
}

/// The sine approximation stays within a scaled unit: the scaled sine
/// of any angle lies in `[-1000, 1000]`.
pub proof fn lemma_sin_milli_range(a: int)
    requires
        0 <= a < 3600,
    ensures
        -1000 <= spec_sin_milli(a) <= 1000,
{
    lemma_half_sine_range(if a <= 1800 {
        a
    } else {
        a - 1800
    });
}

/// On a half turn the sine approximation lies in `[0, 1000]`.
proof fn lemma_half_sine_range(x: int)
    requires
        0 <= x <= 1800,
    ensures
        0 <= half_sine_milli(x) <= 1000,
{
    let u: int = x * (1800 - x);
    assert(0 <= u <= 810_000) by (nonlinear_arith)
        requires
            0 <= x <= 1800,
            u == x * (1800 - x),
    ;
    vstd::arithmetic::div_mod::lemma_div_pos_is_pos(4000 * u, 4_050_000 - u);
    vstd::arithmetic::div_mod::lemma_div_is_ordered(
        4000 * u,
        1000 * (4_050_000 - u),
        4_050_000 - u,
    );
    vstd::arithmetic::div_mod::lemma_div_by_multiple(1000, 4_050_000 - u);
}

/// A candidate straight ahead of the cone passes the angular test: if
/// the offset from the apex is a nonnegative multiple of the facing
/// direction (zero cross product, nonnegative dot product) and lies
/// within `radius + area` of the apex, the cone contains it. In
/// particular a point exactly at distance `radius` along the heading
/// is contained.
#[verifier::rlimit(60)]
pub proof fn lemma_contains_on_heading(cone: ViewCone, point: Vec2i, area: int)
    requires
        cone.wf(),
        0 <= area,
        cone.spec_heading_x() * (point.y - cone.center.y) == cone.spec_heading_y() * (point.x
            - cone.center.x),
        cone.spec_heading_x() * (point.x - cone.center.x) + cone.spec_heading_y() * (point.y
            - cone.center.y) >= 0,
        dist_sq(point, cone.center) <= (cone.radius + area) * (cone.radius + area),
    ensures
        cone.spec_contains(point, area),
{
    let hx = cone.spec_heading_x();
    let hy = cone.spec_heading_y();
    let tx = point.x - cone.center.x;
    let ty = point.y - cone.center.y;
    let c = cone.spec_half_angle_cos();
    assert(0 <= (cone.view_angle / 2) < 3600);
    vstd::arithmetic::div_mod::lemma_mod_pos_bound((cone.view_angle / 2) as int + 900, 3600);
    lemma_sin_milli_range(((cone.view_angle / 2) as int + 900) % 3600);
    assert(-1000 <= c <= 1000);
    let dot = hx * tx + hy * ty;
    assert((dot * dot) == (hx * hx + hy * hy) * (tx * tx + ty * ty)) by (nonlinear_arith)
        requires
            hx * ty == hy * tx,
            dot == hx * tx + hy * ty,
    ;
    assert(0 <= hx * hx + hy * hy && 0 <= tx * tx + ty * ty) by (nonlinear_arith);
    assert(1_000_000 * (dot * dot) >= ((c * c) * (hx * hx + hy * hy)) * (tx * tx + ty * ty))
        by (nonlinear_arith)
        requires
            (dot * dot) == (hx * hx + hy * hy) * (tx * tx + ty * ty),
            -1000 <= c <= 1000,
            0 <= hx * hx + hy * hy,
            0 <= tx * tx + ty * ty,
    ;
}

} // verus!
