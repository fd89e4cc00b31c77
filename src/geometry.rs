//! Integer plane geometry: points, segments and circles.
//!
//! Coordinates are milli-units bounded by `COORD_LIMIT`. Every predicate on
//! distances is decided exactly on squared quantities; a distance that is
//! returned as a number is the floor of the true Euclidean distance.

use vstd::prelude::*;

verus! {

/// Largest absolute coordinate of a point or a vector (2^29 milli-units).
pub const COORD_LIMIT: i64 = 536870912;

/// Largest absolute difference of two coordinates (2^30 milli-units).
pub const DIFF_LIMIT: i64 = 1073741824;

/// Largest absolute radius of a circle and largest length handed to a
/// scaling operation (2^31 milli-units).
pub const RADIUS_LIMIT: i64 = 2147483648;

/// Largest absolute factor handed to `Vec2::mul_div` (2^40).
pub const MUL_LIMIT: i64 = 1099511627776;

/// Fixed-point length of a normalized vector.
pub const UNIT: i64 = 1000;

/// Milli-units in one arena unit (one grid step).
pub const MILLI_PER_UNIT: i64 = 1000;

/// Fixed-point scale of the cosine and sine handed to `Vec2::rotate`.
pub const ANGLE_ONE: i64 = 10000;

pub open spec fn clamp_coord(v: int) -> int {
    if v < -COORD_LIMIT {
        -COORD_LIMIT as int
    } else if v > COORD_LIMIT {
        COORD_LIMIT as int
    } else {
        v
    }
}

/// Integer division that rounds toward zero (`d > 0`).
pub open spec fn div_trunc(a: int, d: int) -> int {
    if a >= 0 {
        a / d
    } else {
        -((-a) / d)
    }
}

pub open spec fn is_floor_sqrt(r: int, n: int) -> bool {
    0 <= r && r * r <= n && n < (r + 1) * (r + 1)
}

/// The integer square root of `n`, rounded down.
pub open spec fn floor_sqrt(n: int) -> int {
    choose|r: int| is_floor_sqrt(r, n)
}

pub open spec fn sq_len(x: int, y: int) -> int {
    x * x + y * y
}

pub open spec fn dot_of(ax: int, ay: int, bx: int, by: int) -> int {
    ax * bx + ay * by
}

pub open spec fn cross_of(ax: int, ay: int, bx: int, by: int) -> int {
    ax * by - ay * bx
}

pub open spec fn sq_dist(a: Vec2, b: Vec2) -> int {
    sq_len(a.x - b.x, a.y - b.y)
}

pub proof fn lemma_floor_sqrt_unique(r1: int, r2: int, n: int)
    requires
        is_floor_sqrt(r1, n),
        is_floor_sqrt(r2, n),
    ensures
        r1 == r2,
{
    if r1 < r2 {
        assert((r1 + 1) * (r1 + 1) <= r2 * r2) by (nonlinear_arith)
            requires
                0 <= r1 + 1 <= r2,
        ;
    } else if r2 < r1 {
        assert((r2 + 1) * (r2 + 1) <= r1 * r1) by (nonlinear_arith)
            requires
                0 <= r2 + 1 <= r1,
        ;
    }
}

/// Every non-negative integer has an integer square root.
pub proof fn lemma_floor_sqrt_exists(n: int)
    requires
        n >= 0,
    ensures
        is_floor_sqrt(floor_sqrt(n), n),
    decreases n,
{
    if n == 0 {
        assert(is_floor_sqrt(0, 0));
    } else {
        lemma_floor_sqrt_exists(n - 1);
        let r = floor_sqrt(n - 1);
        if (r + 1) * (r + 1) <= n {
            assert((r + 2) * (r + 2) > n) by (nonlinear_arith)
                requires
                    n - 1 < (r + 1) * (r + 1),
                    r >= 0,
            ;
            assert(is_floor_sqrt(r + 1, n));
        } else {
            assert(is_floor_sqrt(r, n));
        }
    }
}

pub proof fn lemma_floor_sqrt_is(r: int, n: int)
    requires
        is_floor_sqrt(r, n),
    ensures
        floor_sqrt(n) == r,
{
    let c = floor_sqrt(n);
    assert(is_floor_sqrt(c, n));
    lemma_floor_sqrt_unique(c, r, n);
}

pub proof fn lemma_mul_bound(a: int, b: int, ba: int, bb: int)
    requires
        -ba <= a <= ba,
        -bb <= b <= bb,
    ensures
        -(ba * bb) <= a * b <= ba * bb,
{
    assert(-(ba * bb) <= a * b <= ba * bb) by (nonlinear_arith)
        requires
            -ba <= a <= ba,
            -bb <= b <= bb,
    ;
}

pub proof fn lemma_sq_nonneg(a: int)
    ensures
        a * a >= 0,
{
    assert(a * a >= 0) by (nonlinear_arith);
}

proof fn lemma_component_le_length(x: int, y: int, l: int)
    requires
        is_floor_sqrt(l, sq_len(x, y)),
    ensures
        -l <= x <= l,
{
    assert(-l <= x <= l) by (nonlinear_arith)
        requires
            x * x + y * y < (l + 1) * (l + 1),
            l >= 0,
    ;
}

proof fn lemma_scaled_component(x: int, len: int, l: int)
    requires
        -l <= x <= l,
        l > 0,
        len >= 0,
    ensures
        -len <= div_trunc(x * len, l) <= len,
{
    let a = if x >= 0 { x * len } else { -(x * len) };
    assert(0 <= a <= l * len) by (nonlinear_arith)
        requires
            -l <= x <= l,
            len >= 0,
            a == if x >= 0 { x * len } else { -(x * len) },
    ;
    vstd::arithmetic::div_mod::lemma_div_is_ordered(a, l * len, l);
    vstd::arithmetic::div_mod::lemma_div_multiples_vanish(len, l);
    assert(l * len == len * l) by (nonlinear_arith);
}

proof fn lemma_trunc_bounds(a: int, l: int)
    requires
        l > 0,
    ensures
        ({
            let q = if div_trunc(a, l) >= 0 { div_trunc(a, l) } else { -div_trunc(a, l) };
            let aa = if a >= 0 { a } else { -a };
            &&& q * l <= aa < (q + 1) * l
            &&& q >= 0
            &&& div_trunc(a, l) * div_trunc(a, l) == q * q
        }),
{
    let aa = if a >= 0 { a } else { -a };
    vstd::arithmetic::div_mod::lemma_fundamental_div_mod(aa, l);
    vstd::arithmetic::div_mod::lemma_div_pos_is_pos(aa, l);
    let q0 = aa / l;
    assert(l * q0 == q0 * l) by (nonlinear_arith);
    assert((q0 + 1) * l == q0 * l + l) by (nonlinear_arith);
    if a >= 0 {
        assert(div_trunc(a, l) == q0);
    } else {
        assert(div_trunc(a, l) == -q0);
    }
    let d = div_trunc(a, l);
    assert(d * d == q0 * q0) by (nonlinear_arith)
        requires
            d == q0 || d == -q0,
    ;
}

/// Scaling a nonzero vector to `len` with the rounded-down length `l` of
/// `|v| * len` gives a vector whose length is within rounding of `len`.
proof fn lemma_scaled_length(x: int, y: int, len: int, l: int)
    requires
        sq_len(x, y) >= 1,
        len >= 1,
        is_floor_sqrt(l, sq_len(x, y) * (len * len)),
    ensures
        l >= len,
        ({
            let rx = div_trunc(x * len * len, l);
            let ry = div_trunc(y * len * len, l);
            &&& rx * rx + ry * ry < (len + 1) * (len + 1)
            &&& len >= 2 ==> (len - 2) * (len - 2) <= rx * rx + ry * ry
        }),
{
    let n = sq_len(x, y);
    let big_n = n * (len * len);
    let a = x * len * len;
    let b = y * len * len;
    assert(big_n >= len * len) by (nonlinear_arith)
        requires
            n >= 1,
            big_n == n * (len * len),
    ;
    assert(l >= len) by (nonlinear_arith)
        requires
            big_n < (l + 1) * (l + 1),
            big_n >= len * len,
            l >= 0,
            len >= 1,
    ;
    assert(a * a + b * b == big_n * (len * len)) by (nonlinear_arith)
        requires
            a == x * len * len,
            b == y * len * len,
            big_n == (x * x + y * y) * (len * len),
    ;
    lemma_trunc_bounds(a, l);
    lemma_trunc_bounds(b, l);
    let rx = div_trunc(a, l);
    let ry = div_trunc(b, l);
    let qx = if rx >= 0 { rx } else { -rx };
    let qy = if ry >= 0 { ry } else { -ry };
    let aa = if a >= 0 { a } else { -a };
    let bb = if b >= 0 { b } else { -b };
    assert(aa * aa + bb * bb == a * a + b * b) by (nonlinear_arith)
        requires
            aa == if a >= 0 { a } else { -a },
            bb == if b >= 0 { b } else { -b },
    ;
    let s = qx * qx + qy * qy;
    // upper bound
    assert(l * l * s <= aa * aa + bb * bb) by (nonlinear_arith)
        requires
            qx * l <= aa,
            qy * l <= bb,
            qx >= 0,
            qy >= 0,
            l > 0,
            s == qx * qx + qy * qy,
    ;
    assert(big_n * (len * len) < (l + 1) * (l + 1) * (len * len)) by (nonlinear_arith)
        requires
            big_n < (l + 1) * (l + 1),
            len >= 1,
    ;
    assert((l + 1) * (l + 1) * (len * len) <= (len + 1) * (len + 1) * (l * l)) by (nonlinear_arith)
        requires
            l >= len,
            len >= 1,
    ;
    assert(s < (len + 1) * (len + 1)) by (nonlinear_arith)
        requires
            l * l * s < (len + 1) * (len + 1) * (l * l),
            l > 0,
    ;
    // lower bound
    assert(aa * aa + bb * bb < l * l * ((qx + 1) * (qx + 1) + (qy + 1) * (qy + 1))) by (nonlinear_arith)
        requires
            aa < (qx + 1) * l,
            bb < (qy + 1) * l,
            aa >= 0,
            bb >= 0,
            l > 0,
    ;
    assert(l * l * (len * len) <= big_n * (len * len)) by (nonlinear_arith)
        requires
            l * l <= big_n,
    ;
    assert(len * len < (qx + 1) * (qx + 1) + (qy + 1) * (qy + 1)) by (nonlinear_arith)
        requires
            l * l * (len * len) < l * l * ((qx + 1) * (qx + 1) + (qy + 1) * (qy + 1)),
            l > 0,
    ;
    if len >= 2 && s < (len - 2) * (len - 2) {
        let m = len - 2;
        let t = qx + qy;
        assert(t * t <= 2 * s) by (nonlinear_arith)
            requires
                t == qx + qy,
                s == qx * qx + qy * qy,
        ;
        assert(t < 2 * m) by (nonlinear_arith)
            requires
                t * t <= 2 * s,
                s < m * m,
                t >= 0,
                m >= 0,
        ;
        assert((qx + 1) * (qx + 1) + (qy + 1) * (qy + 1) == s + 2 * t + 2) by (nonlinear_arith)
            requires
                t == qx + qy,
                s == qx * qx + qy * qy,
        ;
        assert(false) by (nonlinear_arith)
            requires
                len * len < s + 2 * t + 2,
                s < m * m,
                t < 2 * m,
                m == len - 2,
        ;
    }
}

/// Largest `r` with `r * r <= n`.
pub fn isqrt(n: u128) -> (r: u64)
    requires
        n < 0x4000_0000_0000_0000_0000_0000_0000_0000u128,
    ensures
        is_floor_sqrt(r as int, n as int),
        r as int == floor_sqrt(n as int),
{
    let mut lo: u128 = 0;
    let mut hi: u128 = 0x8000_0000_0000_0000u128;
    assert(hi * hi == 0x4000_0000_0000_0000_0000_0000_0000_0000u128) by (nonlinear_arith)
        requires
            hi == 0x8000_0000_0000_0000u128,
    ;
    while hi - lo > 1
        invariant
            lo < hi <= 0x8000_0000_0000_0000u128,
            lo * lo <= n,
            n < hi * hi,
        decreases hi - lo,
    {
        let mid = lo + (hi - lo) / 2;
        assert(mid * mid <= 0x4000_0000_0000_0000_0000_0000_0000_0000u128) by (nonlinear_arith)
            requires
                mid <= 0x8000_0000_0000_0000u128,
        ;
        if mid * mid <= n {
            lo = mid;
        } else {
            hi = mid;
        }
    }
    proof {
        lemma_floor_sqrt_is(lo as int, n as int);
    }
    lo as u64
}

/// Square root of a non-negative `i128`, rounded down.
pub fn isqrt_i128(n: i128) -> (r: i64)
    requires
        0 <= n < 0x4000_0000_0000_0000_0000_0000_0000_0000i128,
    ensures
        r as int == floor_sqrt(n as int),
        is_floor_sqrt(r as int, n as int),
{
    let s = isqrt(n as u128);
    proof {
        if s >= 0x8000_0000_0000_0000u64 {
            assert((s as int) * (s as int) >= 0x4000_0000_0000_0000_0000_0000_0000_0000int)
                by (nonlinear_arith)
                requires
                    s as int >= 0x8000_0000_0000_0000int,
            ;
        }
    }
    s as i64
}

/// `a / d` rounded toward zero, for `d > 0`.
pub fn div_trunc_i128(a: i128, d: i128) -> (r: i128)
    requires
        d > 0,
        a > i128::MIN,
    ensures
        r as int == div_trunc(a as int, d as int),
{
    if a >= 0 {
        ((a as u128) / (d as u128)) as i128
    } else {
        let q = ((-a) as u128) / (d as u128);
        -(q as i128)
    }
}

/// Clamps an integer to the coordinate range.
pub fn clamp_to_coord(v: i128) -> (r: i64)
    ensures
        r as int == clamp_coord(v as int),
{
    if v < -(COORD_LIMIT as i128) {
        -COORD_LIMIT
    } else if v > COORD_LIMIT as i128 {
        COORD_LIMIT
    } else {
        v as i64
    }
}

/// A point or a vector of the plane, in milli-units.
#[derive(Clone, Copy, Debug, PartialEq, Eq, Structural)]
pub struct Vec2 {
    pub x: i64,
    pub y: i64,
}

pub open spec fn vec_of(x: int, y: int) -> Vec2 {
    Vec2 { x: x as i64, y: y as i64 }
}

/// `v` scaled to length `len` (zero stays zero).
///
/// The length of `v` is taken at the scale of `len` (`l` is `|v| * len`
/// rounded down), so that rounding it costs at most one in the result.
pub open spec fn scaled_to_spec(v: Vec2, len: int) -> Vec2 {
    let l = floor_sqrt(sq_len(v.x as int, v.y as int) * (len * len));
    if l == 0 {
        Vec2 { x: 0, y: 0 }
    } else {
        vec_of(
            clamp_coord(div_trunc(v.x * len * len, l)),
            clamp_coord(div_trunc(v.y * len * len, l)),
        )
    }
}

pub open spec fn add_spec(a: Vec2, b: Vec2) -> Vec2 {
    vec_of(clamp_coord(a.x + b.x), clamp_coord(a.y + b.y))
}

pub open spec fn sub_spec(a: Vec2, b: Vec2) -> Vec2 {
    vec_of(clamp_coord(a.x - b.x), clamp_coord(a.y - b.y))
}

pub open spec fn mul_div_spec(v: Vec2, num: int, den: int) -> Vec2 {
    vec_of(clamp_coord(div_trunc(v.x * num, den)), clamp_coord(div_trunc(v.y * num, den)))
}

impl Vec2 {
    pub open spec fn wf(self) -> bool {
        -COORD_LIMIT <= self.x <= COORD_LIMIT && -COORD_LIMIT <= self.y <= COORD_LIMIT
    }

    pub open spec fn is_zero(self) -> bool {
        self.x == 0 && self.y == 0
    }

    pub fn new(x: i64, y: i64) -> (r: Vec2)
        ensures
            r.x == x,
            r.y == y,
    {
        Vec2 { x, y }
    }

    pub fn zero() -> (r: Vec2)
        ensures
            r.is_zero(),
            r.wf(),
    {
        Vec2 { x: 0, y: 0 }
    }

    pub fn square_distance_to(&self, other: &Vec2) -> (r: i128)
        requires
            self.wf(),
            other.wf(),
        ensures
            r as int == sq_dist(*self, *other),
            0 <= r <= 0x8000_0000_0000_0000i128 / 4,
    {
        let dx = self.x as i128 - other.x as i128;
        let dy = self.y as i128 - other.y as i128;
        proof {
            lemma_mul_bound(dx as int, dx as int, DIFF_LIMIT as int, DIFF_LIMIT as int);
            lemma_mul_bound(dy as int, dy as int, DIFF_LIMIT as int, DIFF_LIMIT as int);
            lemma_sq_nonneg(dx as int);
            lemma_sq_nonneg(dy as int);
        }
        dx * dx + dy * dy
    }

    pub fn distance_to(&self, other: &Vec2) -> (r: i64)
        requires
            self.wf(),
            other.wf(),
        ensures
            r as int == floor_sqrt(sq_dist(*self, *other)),
            is_floor_sqrt(r as int, sq_dist(*self, *other)),
    {
        let s = self.square_distance_to(other);
        isqrt_i128(s)
    }

    pub fn length(&self) -> (r: i64)
        requires
            self.wf(),
        ensures
            r as int == floor_sqrt(sq_len(self.x as int, self.y as int)),
            is_floor_sqrt(r as int, sq_len(self.x as int, self.y as int)),
            0 <= r <= 0x3000_0000,
    {
        let z = Vec2::zero();
        let r = self.distance_to(&z);
        assert(sq_dist(*self, z) == sq_len(self.x as int, self.y as int));
        proof {
            if r > 0x3000_0000 {
                lemma_mul_bound(self.x as int, self.x as int, COORD_LIMIT as int, COORD_LIMIT as int);
                lemma_mul_bound(self.y as int, self.y as int, COORD_LIMIT as int, COORD_LIMIT as int);
                assert((r as int) * (r as int) > 0x0800_0000_0000_0000int) by (nonlinear_arith)
                    requires
                        r as int > 0x3000_0000int,
                ;
            }
        }
        r
    }

    /// This vector stretched or shrunk to length `len`; the zero vector
    /// stays zero.
    pub fn scaled_to(&self, len: i64) -> (r: Vec2)
        requires
            self.wf(),
            0 <= len <= RADIUS_LIMIT,
        ensures
            r == scaled_to_spec(*self, len as int),
            r.wf(),
            -len <= r.x <= len,
            -len <= r.y <= len,
            self.is_zero() ==> r.is_zero(),
            !self.is_zero() && len <= COORD_LIMIT ==> sq_len(r.x as int, r.y as int) < (len + 1)
                * (len + 1),
            !self.is_zero() && 2 <= len <= COORD_LIMIT ==> (len - 2) * (len - 2) <= sq_len(
                r.x as int,
                r.y as int,
            ),
    {
        let ghost n = sq_len(self.x as int, self.y as int);
        proof {
            lemma_mul_bound(self.x as int, self.x as int, COORD_LIMIT as int, COORD_LIMIT as int);
            lemma_mul_bound(self.y as int, self.y as int, COORD_LIMIT as int, COORD_LIMIT as int);
            lemma_sq_nonneg(self.x as int);
            lemma_sq_nonneg(self.y as int);
            lemma_mul_bound(len as int, len as int, RADIUS_LIMIT as int, RADIUS_LIMIT as int);
            lemma_sq_nonneg(len as int);
            lemma_mul_bound(n, (len * len) as int, 0x0800_0000_0000_0000int, 0x4000_0000_0000_0000int);
            vstd::arithmetic::mul::lemma_mul_nonnegative(n, (len * len) as int);
        }
        let sq = self.x as i128 * self.x as i128 + self.y as i128 * self.y as i128;
        let ll = len as i128 * len as i128;
        let l = isqrt_i128(sq * ll);
        proof {
            if self.is_zero() {
                assert(n == 0) by (nonlinear_arith)
                    requires
                        n == self.x * self.x + self.y * self.y,
                        self.x == 0,
                        self.y == 0,
                ;
                assert(n * (len * len) == 0) by (nonlinear_arith)
                    requires
                        n == 0,
                ;
                assert(is_floor_sqrt(0, 0));
                lemma_floor_sqrt_unique(l as int, 0, 0);
            } else if len >= 1 {
                assert(n >= 1) by (nonlinear_arith)
                    requires
                        n == self.x * self.x + self.y * self.y,
                        !(self.x == 0 && self.y == 0),
                ;
                lemma_scaled_length(self.x as int, self.y as int, len as int, l as int);
            }
        }
        if l == 0 {
            return Vec2::zero();
        }
        proof {
            lemma_mul_bound(self.x as int, len as int, COORD_LIMIT as int, RADIUS_LIMIT as int);
            lemma_mul_bound(self.y as int, len as int, COORD_LIMIT as int, RADIUS_LIMIT as int);
            lemma_mul_bound((self.x * len) as int, len as int, 0x1000_0000_0000_0000int, RADIUS_LIMIT as int);
            lemma_mul_bound((self.y * len) as int, len as int, 0x1000_0000_0000_0000int, RADIUS_LIMIT as int);
        }
        let x = div_trunc_i128(self.x as i128 * len as i128 * len as i128, l as i128);
        let y = div_trunc_i128(self.y as i128 * len as i128 * len as i128, l as i128);
        proof {
            let xl = self.x * len;
            let yl = self.y * len;
            assert(sq_len(xl, yl) == n * (len * len)) by (nonlinear_arith)
                requires
                    xl == self.x * len,
                    yl == self.y * len,
                    n == self.x * self.x + self.y * self.y,
            ;
            lemma_component_le_length(xl, yl, l as int);
            lemma_component_le_length(yl, xl, l as int);
            lemma_scaled_component(xl, len as int, l as int);
            lemma_scaled_component(yl, len as int, l as int);
            assert(xl * len == self.x * len * len);
            assert(yl * len == self.y * len * len);
            if !self.is_zero() && len >= 1 {
                assert(n >= 1) by (nonlinear_arith)
                    requires
                        n == self.x * self.x + self.y * self.y,
                        !(self.x == 0 && self.y == 0),
                ;
                lemma_scaled_length(self.x as int, self.y as int, len as int, l as int);
            }
        }
        Vec2 { x: clamp_to_coord(x), y: clamp_to_coord(y) }
    }

    /// The direction of this vector as a vector of length `UNIT`; the zero
    /// vector normalizes to the zero vector.
    pub fn normalize(&self) -> (r: Vec2)
        requires
            self.wf(),
        ensures
            r == scaled_to_spec(*self, UNIT as int),
            r.wf(),
            -UNIT <= r.x <= UNIT,
            -UNIT <= r.y <= UNIT,
            self.is_zero() ==> r.is_zero(),
            !self.is_zero() ==> (UNIT - 2) * (UNIT - 2) <= sq_len(r.x as int, r.y as int) < (UNIT
                + 1) * (UNIT + 1),
    {
        self.scaled_to(UNIT)
    }

    pub fn dot(&self, other: &Vec2) -> (r: i128)
        requires
            self.wf(),
            other.wf(),
        ensures
            r as int == dot_of(self.x as int, self.y as int, other.x as int, other.y as int),
    {
        proof {
            lemma_mul_bound(self.x as int, other.x as int, COORD_LIMIT as int, COORD_LIMIT as int);
            lemma_mul_bound(self.y as int, other.y as int, COORD_LIMIT as int, COORD_LIMIT as int);
        }
        self.x as i128 * other.x as i128 + self.y as i128 * other.y as i128
    }

    pub fn inverse(&self) -> (r: Vec2)
        requires
            self.wf(),
        ensures
            r.x == -self.x,
            r.y == -self.y,
            r.wf(),
    {
        Vec2 { x: -self.x, y: -self.y }
    }

    /// Rotation by the angle whose cosine and sine are `cos / ANGLE_ONE` and
    /// `sin / ANGLE_ONE`.
    pub fn rotate(&self, cos: i64, sin: i64) -> (r: Vec2)
        requires
            self.wf(),
            -ANGLE_ONE <= cos <= ANGLE_ONE,
            -ANGLE_ONE <= sin <= ANGLE_ONE,
        ensures
            r == vec_of(
                clamp_coord(div_trunc(self.x * cos - self.y * sin, ANGLE_ONE as int)),
                clamp_coord(div_trunc(self.x * sin + self.y * cos, ANGLE_ONE as int)),
            ),
            r.wf(),
    {
        proof {
            lemma_mul_bound(self.x as int, cos as int, COORD_LIMIT as int, ANGLE_ONE as int);
            lemma_mul_bound(self.y as int, sin as int, COORD_LIMIT as int, ANGLE_ONE as int);
            lemma_mul_bound(self.x as int, sin as int, COORD_LIMIT as int, ANGLE_ONE as int);
            lemma_mul_bound(self.y as int, cos as int, COORD_LIMIT as int, ANGLE_ONE as int);
        }
        let x = self.x as i128 * cos as i128 - self.y as i128 * sin as i128;
        let y = self.x as i128 * sin as i128 + self.y as i128 * cos as i128;
        let x = div_trunc_i128(x, ANGLE_ONE as i128);
        let y = div_trunc_i128(y, ANGLE_ONE as i128);
        Vec2 { x: clamp_to_coord(x), y: clamp_to_coord(y) }
    }

    /// This vector made `extra` longer along its direction; the zero vector
    /// stays zero.
    pub fn lengthened(&self, extra: i64) -> (r: Vec2)
        requires
            self.wf(),
            0 <= extra <= COORD_LIMIT,
        ensures
            r == scaled_to_spec(*self, floor_sqrt(sq_len(self.x as int, self.y as int)) + extra),
            r.wf(),
    {
        let l = self.length();
        self.scaled_to(l + extra)
    }

    /// The point of the arena at grid point `p` (one grid step per arena
    /// unit), saturated to the coordinate range.
    pub fn from_grid(p: Vec2i) -> (r: Vec2)
        ensures
            r == vec_of(clamp_coord(p.x * MILLI_PER_UNIT), clamp_coord(p.y * MILLI_PER_UNIT)),
            r.wf(),
    {
        Vec2 {
            x: clamp_to_coord(p.x as i128 * MILLI_PER_UNIT as i128),
            y: clamp_to_coord(p.y as i128 * MILLI_PER_UNIT as i128),
        }
    }

    /// Sum, saturated to the coordinate range.
    pub fn add(&self, other: &Vec2) -> (r: Vec2)
        requires
            self.wf(),
            other.wf(),
        ensures
            r == add_spec(*self, *other),
            r.wf(),
    {
        Vec2 {
            x: clamp_to_coord(self.x as i128 + other.x as i128),
            y: clamp_to_coord(self.y as i128 + other.y as i128),
        }
    }

    /// Difference, saturated to the coordinate range.
    pub fn sub(&self, other: &Vec2) -> (r: Vec2)
        requires
            self.wf(),
            other.wf(),
        ensures
            r == sub_spec(*self, *other),
            r.wf(),
    {
        Vec2 {
            x: clamp_to_coord(self.x as i128 - other.x as i128),
            y: clamp_to_coord(self.y as i128 - other.y as i128),
        }
    }

    /// This vector times `num / den`, rounded toward zero and saturated to
    /// the coordinate range.
    pub fn mul_div(&self, num: i64, den: i64) -> (r: Vec2)
        requires
            self.wf(),
            -MUL_LIMIT <= num <= MUL_LIMIT,
            den > 0,
        ensures
            r == mul_div_spec(*self, num as int, den as int),
            r.wf(),
    {
        proof {
            lemma_mul_bound(self.x as int, num as int, COORD_LIMIT as int, MUL_LIMIT as int);
            lemma_mul_bound(self.y as int, num as int, COORD_LIMIT as int, MUL_LIMIT as int);
        }
        let x = div_trunc_i128(self.x as i128 * num as i128, den as i128);
        let y = div_trunc_i128(self.y as i128 * num as i128, den as i128);
        Vec2 { x: clamp_to_coord(x), y: clamp_to_coord(y) }
    }
}

/// A point of an integer grid.
#[derive(Clone, Copy, Debug, PartialEq, Eq, Hash, Structural)]
pub struct Vec2i {
    pub x: i32,
    pub y: i32,
}

impl Vec2i {
    pub fn new(x: i32, y: i32) -> (r: Vec2i)
        ensures
            r.x == x,
            r.y == y,
    {
        Vec2i { x, y }
    }

    pub fn square_distance(&self, other: &Vec2i) -> (r: i128)
        ensures
            r as int == sq_len(self.x - other.x, self.y - other.y),
    {
        let dx = self.x as i128 - other.x as i128;
        let dy = self.y as i128 - other.y as i128;
        proof {
            lemma_mul_bound(dx as int, dx as int, 0x1_0000_0000int, 0x1_0000_0000int);
            lemma_mul_bound(dy as int, dy as int, 0x1_0000_0000int, 0x1_0000_0000int);
        }
        dx * dx + dy * dy
    }

    pub fn zero() -> (r: Vec2i)
        ensures
            r.x == 0,
            r.y == 0,
    {
        Vec2i { x: 0, y: 0 }
    }

    /// The grid point nearest `p`, halves rounded away from zero.
    pub fn from_point(p: Vec2) -> (r: Vec2i)
        requires
            p.wf(),
        ensures
            r.x as int == round_div(p.x as int, MILLI_PER_UNIT as int),
            r.y as int == round_div(p.y as int, MILLI_PER_UNIT as int),
    {
        Vec2i { x: round_to_grid(p.x), y: round_to_grid(p.y) }
    }
}

/// `a / d` rounded to the nearest integer, halves away from zero (`d > 0`).
pub open spec fn round_div(a: int, d: int) -> int {
    if a >= 0 {
        (2 * a + d) / (2 * d)
    } else {
        -((-2 * a + d) / (2 * d))
    }
}

fn round_to_grid(c: i64) -> (r: i32)
    requires
        -COORD_LIMIT <= c <= COORD_LIMIT,
    ensures
        r as int == round_div(c as int, MILLI_PER_UNIT as int),
{
    let a: i64 = if c >= 0 {
        c
    } else {
        -c
    };
    let n: i64 = 2 * a + MILLI_PER_UNIT;
    proof {
        vstd::arithmetic::div_mod::lemma_div_is_ordered_by_denominator(n as int, 1, 2 * MILLI_PER_UNIT);
        vstd::arithmetic::div_mod::lemma_div_pos_is_pos(n as int, 2 * MILLI_PER_UNIT);
    }
    let q: i64 = n / (2 * MILLI_PER_UNIT);
    if c >= 0 {
        q as i32
    } else {
        -(q as i32)
    }
}

/// A segment from `start` to `end`.
#[derive(Clone, Copy, Debug, PartialEq, Eq, Structural)]
pub struct Line {
    pub start: Vec2,
    pub end: Vec2,
}

impl Line {
    pub open spec fn wf(self) -> bool {
        self.start.wf() && self.end.wf()
    }

    pub open spec fn len_sq(self) -> int {
        sq_dist(self.end, self.start)
    }

    /// Dot product of the segment's vector with the vector from its start to `p`.
    pub open spec fn proj(self, p: Vec2) -> int {
        dot_of(
            self.end.x - self.start.x,
            self.end.y - self.start.y,
            p.x - self.start.x,
            p.y - self.start.y,
        )
    }

    pub open spec fn perp(self, p: Vec2) -> int {
        cross_of(
            self.end.x - self.start.x,
            self.end.y - self.start.y,
            p.x - self.start.x,
            p.y - self.start.y,
        )
    }

    /// The squared distance from `p` to the segment is `dist_num / dist_den`:
    /// to the start when the projection of `p` falls before it, to the end
    /// when it falls after it, and to the supporting line otherwise.
    pub open spec fn dist_num(self, p: Vec2) -> int {
        if self.proj(p) <= 0 {
            sq_dist(p, self.start)
        } else if self.proj(p) >= self.len_sq() {
            sq_dist(p, self.end)
        } else {
            self.perp(p) * self.perp(p)
        }
    }

    pub open spec fn dist_den(self, p: Vec2) -> int {
        if self.proj(p) <= 0 || self.proj(p) >= self.len_sq() {
            1
        } else {
            self.len_sq()
        }
    }

    /// The distance from `p` to the segment is at most `r`.
    pub open spec fn within(self, p: Vec2, r: int) -> bool {
        self.dist_num(p) <= r * r * self.dist_den(p)
    }

    /// The distance from `p` to the segment is less than `r` (`r >= 0`).
    pub open spec fn closer_than(self, p: Vec2, r: int) -> bool {
        self.dist_num(p) < r * r * self.dist_den(p)
    }

    pub open spec fn distance_spec(self, p: Vec2) -> int {
        floor_sqrt(self.dist_num(p) / self.dist_den(p))
    }

    pub fn new(start: Vec2, end: Vec2) -> (r: Line)
        ensures
            r.start == start,
            r.end == end,
    {
        Line { start, end }
    }

    pub fn length(&self) -> (r: i64)
        requires
            self.wf(),
        ensures
            r as int == floor_sqrt(self.len_sq()),
    {
        self.end.distance_to(&self.start)
    }

    pub fn as_vec(&self) -> (r: Vec2)
        requires
            self.wf(),
        ensures
            r == sub_spec(self.end, self.start),
            r.wf(),
    {
        self.end.sub(&self.start)
    }

    /// Moves the end along the segment's direction so that the segment has
    /// length `length`; a segment of length zero stays where it is.
    pub fn set_length(&mut self, length: i64)
        requires
            old(self).wf(),
            0 <= length <= RADIUS_LIMIT,
        ensures
            final(self).start == old(self).start,
            final(self).end == add_spec(
                old(self).start,
                scaled_to_spec(sub_spec(old(self).end, old(self).start), length as int),
            ),
            final(self).wf(),
            ({
                let v = scaled_to_spec(sub_spec(old(self).end, old(self).start), length as int);
                old(self).start != old(self).end && 2 <= length <= COORD_LIMIT ==> (length - 2) * (
                length - 2) <= sq_len(v.x as int, v.y as int) < (length + 1) * (length + 1)
            }),
    {
        let v = self.as_vec().scaled_to(length);
        self.end = self.start.add(&v);
    }

    /// `(dist_num(p), dist_den(p))`.
    pub fn dist_parts(&self, p: &Vec2) -> (r: (i128, i128))
        requires
            self.wf(),
            p.wf(),
        ensures
            r.0 as int == self.dist_num(*p),
            r.1 as int == self.dist_den(*p),
            0 <= r.0 <= 0x0400_0000_0000_0000_0000_0000_0000_0000i128,
            1 <= r.1 <= 0x2000_0000_0000_0000i128,
    {
        let ax = self.end.x as i128 - self.start.x as i128;
        let ay = self.end.y as i128 - self.start.y as i128;
        let bx = p.x as i128 - self.start.x as i128;
        let by = p.y as i128 - self.start.y as i128;
        let ghost lim: int = DIFF_LIMIT as int;
        proof {
            lemma_mul_bound(ax as int, bx as int, lim, lim);
            lemma_mul_bound(ay as int, by as int, lim, lim);
            lemma_mul_bound(ax as int, by as int, lim, lim);
            lemma_mul_bound(ay as int, bx as int, lim, lim);
            lemma_mul_bound(ax as int, ax as int, lim, lim);
            lemma_mul_bound(ay as int, ay as int, lim, lim);
            lemma_sq_nonneg(ax as int);
            lemma_sq_nonneg(ay as int);
        }
        let proj = ax * bx + ay * by;
        let len_sq = ax * ax + ay * ay;
        if proj <= 0 {
            (p.square_distance_to(&self.start), 1)
        } else if proj >= len_sq {
            (p.square_distance_to(&self.end), 1)
        } else {
            let perp = ax * by - ay * bx;
            proof {
                lemma_mul_bound(perp as int, perp as int, 0x2000_0000_0000_0000int, 0x2000_0000_0000_0000int);
                lemma_sq_nonneg(perp as int);
            }
            (perp * perp, len_sq)
        }
    }

    /// Distance from `point` to the segment, rounded down.
    pub fn distance_to_point(&self, point: &Vec2) -> (r: i64)
        requires
            self.wf(),
            point.wf(),
        ensures
            r as int == self.distance_spec(*point),
            r >= 0,
    {
        let (num, den) = self.dist_parts(point);
        let q = (num as u128 / den as u128) as i128;
        assert(q as int == num as int / den as int);
        proof {
            vstd::arithmetic::div_mod::lemma_div_is_ordered_by_denominator(num as int, 1, den as int);
            assert(num as int / 1 == num as int);
        }
        isqrt_i128(q)
    }

    /// Whether `point` lies within distance `r` of the segment.
    pub fn is_within(&self, point: &Vec2, r: i64) -> (b: bool)
        requires
            self.wf(),
            point.wf(),
            -RADIUS_LIMIT <= r <= RADIUS_LIMIT,
        ensures
            b == self.within(*point, r as int),
    {
        let (num, den) = self.dist_parts(point);
        proof {
            lemma_mul_bound(r as int, r as int, RADIUS_LIMIT as int, RADIUS_LIMIT as int);
            lemma_sq_nonneg(r as int);
            lemma_mul_bound((r * r) as int, den as int, 0x4000_0000_0000_0000int, 0x2000_0000_0000_0000int);
        }
        let r = r as i128;
        num <= r * r * den
    }

    /// Whether `point` lies closer than `r` to the segment.
    pub fn is_closer_than(&self, point: &Vec2, r: i64) -> (b: bool)
        requires
            self.wf(),
            point.wf(),
            -RADIUS_LIMIT <= r <= RADIUS_LIMIT,
        ensures
            b == self.closer_than(*point, r as int),
    {
        let (num, den) = self.dist_parts(point);
        proof {
            lemma_mul_bound(r as int, r as int, RADIUS_LIMIT as int, RADIUS_LIMIT as int);
            lemma_sq_nonneg(r as int);
            lemma_mul_bound((r * r) as int, den as int, 0x4000_0000_0000_0000int, 0x2000_0000_0000_0000int);
        }
        let r = r as i128;
        num < r * r * den
    }
}

/// A disc; a negative radius holds no point.
#[derive(Clone, Copy, Debug, PartialEq, Eq, Structural)]
pub struct Circle {
    pub center: Vec2,
    pub radius: i64,
}

pub open spec fn contains_spec(c: Circle, p: Vec2) -> bool {
    c.radius >= 0 && sq_dist(c.center, p) <= c.radius * c.radius
}

/// The segment passes within the circle: the point of the segment closest
/// to the center lies inside it.
pub open spec fn intercepts_spec(c: Circle, l: Line) -> bool {
    c.radius >= 0 && l.within(c.center, c.radius as int)
}

impl Circle {
    pub open spec fn wf(self) -> bool {
        self.center.wf() && -RADIUS_LIMIT <= self.radius <= RADIUS_LIMIT
    }

    pub fn new(center: Vec2, radius: i64) -> (r: Circle)
        ensures
            r.center == center,
            r.radius == radius,
    {
        Circle { center, radius }
    }

    pub fn intersects_with(&self, other: &Circle) -> (b: bool)
        requires
            self.wf(),
            other.wf(),
        ensures
            b == (self.radius + other.radius >= 0 && sq_dist(self.center, other.center) <= (
            self.radius + other.radius) * (self.radius + other.radius)),
    {
        let s = self.center.square_distance_to(&other.center);
        let r = self.radius as i128 + other.radius as i128;
        proof {
            lemma_mul_bound(r as int, r as int, 0x1_0000_0000int, 0x1_0000_0000int);
        }
        r >= 0 && s <= r * r
    }

    pub fn contains(&self, point: &Vec2) -> (b: bool)
        requires
            self.wf(),
            point.wf(),
        ensures
            b == contains_spec(*self, *point),
    {
        if self.radius < 0 {
            return false;
        }
        let s = self.center.square_distance_to(point);
        let r = self.radius as i128;
        proof {
            lemma_mul_bound(r as int, r as int, RADIUS_LIMIT as int, RADIUS_LIMIT as int);
        }
        s <= r * r
    }

    pub fn intercept_with_line(&self, line: &Line) -> (b: bool)
        requires
            self.wf(),
            line.wf(),
        ensures
            b == intercepts_spec(*self, *line),
    {
        self.radius >= 0 && line.is_within(&self.center, self.radius)
    }
}

/// A segment whose two ends coincide is exactly as far from any point as its
/// start is.
pub proof fn law_degenerate_segment_distance(l: Line, p: Vec2)
    requires
        l.start == l.end,
    ensures
        l.dist_num(p) == sq_dist(p, l.start),
        l.dist_den(p) == 1,
        l.distance_spec(p) == floor_sqrt(sq_dist(p, l.start)),
{
    assert(l.proj(p) == 0);
}

pub open spec fn reversed(l: Line) -> Line {
    Line { start: l.end, end: l.start }
}

proof fn lemma_reversed_parts(l: Line, p: Vec2)
    ensures
        reversed(l).len_sq() == l.len_sq(),
        reversed(l).proj(p) == l.len_sq() - l.proj(p),
        reversed(l).perp(p) == -l.perp(p),
        l.len_sq() >= 0,
        l.len_sq() == 0 ==> l.start == l.end,
{
    let ax = l.end.x - l.start.x;
    let ay = l.end.y - l.start.y;
    let bx = p.x - l.start.x;
    let by = p.y - l.start.y;
    assert(sq_len(-ax, -ay) == sq_len(ax, ay)) by (nonlinear_arith);
    assert(dot_of(-ax, -ay, bx - ax, by - ay) == sq_len(ax, ay) - dot_of(ax, ay, bx, by))
        by (nonlinear_arith);
    assert(cross_of(-ax, -ay, bx - ax, by - ay) == -cross_of(ax, ay, bx, by)) by (nonlinear_arith);
    assert(sq_len(ax, ay) >= 0) by (nonlinear_arith);
    if sq_len(ax, ay) == 0 {
        assert(ax == 0 && ay == 0) by (nonlinear_arith)
            requires
                ax * ax + ay * ay == 0,
        ;
    }
    assert(reversed(l).proj(p) == dot_of(-ax, -ay, bx - ax, by - ay));
    assert(reversed(l).perp(p) == cross_of(-ax, -ay, bx - ax, by - ay));
}

/// Whether a segment passes through a circle does not depend on the order of
/// its two ends.
pub proof fn law_intercept_symmetric(c: Circle, l: Line)
    ensures
        intercepts_spec(c, l) == intercepts_spec(c, reversed(l)),
{
    let p = c.center;
    lemma_reversed_parts(l, p);
    let r = reversed(l);
    assert(r.dist_num(p) == l.dist_num(p) && r.dist_den(p) == l.dist_den(p)) by {
        if l.proj(p) > 0 && l.proj(p) < l.len_sq() {
            assert(r.perp(p) * r.perp(p) == l.perp(p) * l.perp(p)) by (nonlinear_arith)
                requires
                    r.perp(p) == -l.perp(p),
            ;
        }
    }
}

/// Shifting a circle and a segment by the same vector `(dx, dy)` does not
/// change whether the segment passes through the circle.
pub proof fn law_intercept_shift(c: Circle, l: Line, c2: Circle, l2: Line, dx: int, dy: int)
    requires
        c2.radius == c.radius,
        c2.center.x == c.center.x + dx,
        c2.center.y == c.center.y + dy,
        l2.start.x == l.start.x + dx,
        l2.start.y == l.start.y + dy,
        l2.end.x == l.end.x + dx,
        l2.end.y == l.end.y + dy,
    ensures
        intercepts_spec(c, l) == intercepts_spec(c2, l2),
{
    let p = c.center;
    let q = c2.center;
    assert(l2.end.x - l2.start.x == l.end.x - l.start.x);
    assert(l2.end.y - l2.start.y == l.end.y - l.start.y);
    assert(q.x - l2.start.x == p.x - l.start.x);
    assert(q.y - l2.start.y == p.y - l.start.y);
    assert(q.x - l2.end.x == p.x - l.end.x);
    assert(q.y - l2.end.y == p.y - l.end.y);
    assert(l2.len_sq() == l.len_sq());
    assert(l2.proj(q) == l.proj(p));
    assert(l2.perp(q) == l.perp(p));
    assert(sq_dist(q, l2.start) == sq_dist(p, l.start));
    assert(sq_dist(q, l2.end) == sq_dist(p, l.end));
}

} // verus!
