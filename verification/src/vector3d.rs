use rand::Rng;
use vstd::prelude::*;
use vstd::string::StringExecFns;

use crate::fixed::{
    div_trunc, div_trunc_spec, isqrt, is_sqrt, lemma_abs_mul_le, lemma_div_trunc_quot_le,
    sqrt_floor, SCALE,
};
use crate::text::{dec_rep, push_decimal};

verus! {

/// A three-component vector in fixed-point coordinates (millionths).
/// Serves as a geometric point, a direction, and an RGB triple alike.
#[derive(Clone, Copy, Debug, PartialEq, Eq, Structural)]
pub struct Vector3D {
    pub x: i128,
    pub y: i128,
    pub z: i128,
}

pub type Color = Vector3D;

pub type Point = Vector3D;

/// Every component has magnitude at most b.
pub open spec fn in_range(v: Vector3D, b: int) -> bool {
    &&& -b <= v.x <= b
    &&& -b <= v.y <= b
    &&& -b <= v.z <= b
}

/// Builds a vector from mathematical components; exact whenever they fit.
pub open spec fn v3(x: int, y: int, z: int) -> Vector3D {
    Vector3D { x: x as i128, y: y as i128, z: z as i128 }
}

pub open spec fn neg_spec(v: Vector3D) -> Vector3D {
    v3(-v.x, -v.y, -v.z)
}

pub open spec fn add_spec(a: Vector3D, b: Vector3D) -> Vector3D {
    v3(a.x + b.x, a.y + b.y, a.z + b.z)
}

pub open spec fn sub_spec(a: Vector3D, b: Vector3D) -> Vector3D {
    v3(a.x - b.x, a.y - b.y, a.z - b.z)
}

/// Componentwise fixed-point product.
pub open spec fn mul_spec(a: Vector3D, b: Vector3D) -> Vector3D {
    v3(
        div_trunc_spec(a.x * b.x, SCALE as int),
        div_trunc_spec(a.y * b.y, SCALE as int),
        div_trunc_spec(a.z * b.z, SCALE as int),
    )
}

/// Fixed-point product with a scalar.
pub open spec fn mul_s_spec(v: Vector3D, t: int) -> Vector3D {
    v3(
        div_trunc_spec(v.x * t, SCALE as int),
        div_trunc_spec(v.y * t, SCALE as int),
        div_trunc_spec(v.z * t, SCALE as int),
    )
}

/// The unit-length vector along v, in fixed-point units.
pub open spec fn unit_spec(v: Vector3D) -> Vector3D {
    v3(
        div_trunc_spec(v.x * SCALE, sqrt_floor(len_sq_spec(v))),
        div_trunc_spec(v.y * SCALE, sqrt_floor(len_sq_spec(v))),
        div_trunc_spec(v.z * SCALE, sqrt_floor(len_sq_spec(v))),
    )
}

/// The dot product, in squared fixed-point units.
pub open spec fn dot_spec(a: Vector3D, b: Vector3D) -> int {
    a.x * b.x + a.y * b.y + a.z * b.z
}

/// The squared length, in squared fixed-point units.
pub open spec fn len_sq_spec(v: Vector3D) -> int {
    dot_spec(v, v)
}

/// Componentwise bound under which a single addition cannot overflow.
pub const VEC_ADD_BOUND: i128 = 1_000_000_000_000_000_000_000_000_000_000_000_000;

/// Componentwise bound under which products and dot products cannot overflow.
pub const VEC_MUL_BOUND: i128 = 1_000_000_000_000_000_000;

/// Componentwise bounds on two vectors bound their dot product.
pub proof fn lemma_dot_bound(a: Vector3D, b: Vector3D, aa: int, bb: int)
    by (nonlinear_arith)
    requires
        in_range(a, aa),
        in_range(b, bb),
        0 <= aa,
        0 <= bb,
    ensures
        -(3 * aa * bb) <= dot_spec(a, b) <= 3 * aa * bb,
{
}

/// A square never exceeds the squared length it contributes to.
pub proof fn lemma_component_le_len(v: Vector3D)
    by (nonlinear_arith)
    ensures
        v.x * v.x <= len_sq_spec(v),
        v.y * v.y <= len_sq_spec(v),
        v.z * v.z <= len_sq_spec(v),
        len_sq_spec(v) >= 0,
{
}

impl Vector3D {
    pub fn neg(self) -> (r: Vector3D)
        requires
            in_range(self, VEC_ADD_BOUND as int),
        ensures
            r.x == -self.x,
            r.y == -self.y,
            r.z == -self.z,
            r == neg_spec(self),
    {
        Vector3D { x: -self.x, y: -self.y, z: -self.z }
    }

    pub fn add(self, other: Vector3D) -> (r: Vector3D)
        requires
            in_range(self, VEC_ADD_BOUND as int),
            in_range(other, VEC_ADD_BOUND as int),
        ensures
            r.x == self.x + other.x,
            r.y == self.y + other.y,
            r.z == self.z + other.z,
            r == add_spec(self, other),
    {
        Vector3D { x: self.x + other.x, y: self.y + other.y, z: self.z + other.z }
    }

    pub fn sub(self, other: Vector3D) -> (r: Vector3D)
        requires
            in_range(self, VEC_ADD_BOUND as int),
            in_range(other, VEC_ADD_BOUND as int),
        ensures
            r.x == self.x - other.x,
            r.y == self.y - other.y,
            r.z == self.z - other.z,
            r == sub_spec(self, other),
    {
        self.add(other.neg())
    }

    /// Componentwise product of two fixed-point values.
    pub fn mul(self, other: Vector3D) -> (r: Vector3D)
        requires
            in_range(self, VEC_MUL_BOUND as int),
            in_range(other, VEC_MUL_BOUND as int),
        ensures
            r.x == div_trunc_spec(self.x * other.x, SCALE as int),
            r.y == div_trunc_spec(self.y * other.y, SCALE as int),
            r.z == div_trunc_spec(self.z * other.z, SCALE as int),
            r == mul_spec(self, other),
    {
        proof {
            lemma_abs_mul_le(self.x as int, other.x as int, VEC_MUL_BOUND as int, VEC_MUL_BOUND as int);
            lemma_abs_mul_le(self.y as int, other.y as int, VEC_MUL_BOUND as int, VEC_MUL_BOUND as int);
            lemma_abs_mul_le(self.z as int, other.z as int, VEC_MUL_BOUND as int, VEC_MUL_BOUND as int);
        }
        Vector3D {
            x: div_trunc(self.x * other.x, SCALE),
            y: div_trunc(self.y * other.y, SCALE),
            z: div_trunc(self.z * other.z, SCALE),
        }
    }

    /// Product with a fixed-point scalar.
    pub fn mul_s(self, t: i128) -> (r: Vector3D)
        requires
            in_range(self, VEC_MUL_BOUND as int),
            -VEC_MUL_BOUND <= t <= VEC_MUL_BOUND,
        ensures
            r.x == div_trunc_spec(self.x * t, SCALE as int),
            r.y == div_trunc_spec(self.y * t, SCALE as int),
            r.z == div_trunc_spec(self.z * t, SCALE as int),
            r == mul_s_spec(self, t as int),
    {
        proof {
            lemma_abs_mul_le(self.x as int, t as int, VEC_MUL_BOUND as int, VEC_MUL_BOUND as int);
            lemma_abs_mul_le(self.y as int, t as int, VEC_MUL_BOUND as int, VEC_MUL_BOUND as int);
            lemma_abs_mul_le(self.z as int, t as int, VEC_MUL_BOUND as int, VEC_MUL_BOUND as int);
        }
        Vector3D {
            x: div_trunc(self.x * t, SCALE),
            y: div_trunc(self.y * t, SCALE),
            z: div_trunc(self.z * t, SCALE),
        }
    }

    /// Componentwise quotient of two fixed-point values.
    pub fn div(self, other: Vector3D) -> (r: Vector3D)
        requires
            in_range(self, VEC_MUL_BOUND as int),
            in_range(other, VEC_MUL_BOUND as int),
            other.x != 0,
            other.y != 0,
            other.z != 0,
        ensures
            r.x == div_signed_spec(self.x * SCALE, other.x as int),
            r.y == div_signed_spec(self.y * SCALE, other.y as int),
            r.z == div_signed_spec(self.z * SCALE, other.z as int),
    {
        proof {
            lemma_abs_mul_le(self.x as int, SCALE as int, VEC_MUL_BOUND as int, SCALE as int);
            lemma_abs_mul_le(self.y as int, SCALE as int, VEC_MUL_BOUND as int, SCALE as int);
            lemma_abs_mul_le(self.z as int, SCALE as int, VEC_MUL_BOUND as int, SCALE as int);
        }
        Vector3D {
            x: div_signed(self.x * SCALE, other.x),
            y: div_signed(self.y * SCALE, other.y),
            z: div_signed(self.z * SCALE, other.z),
        }
    }

    /// Quotient by a fixed-point scalar.
    pub fn div_s(self, t: i128) -> (r: Vector3D)
        requires
            in_range(self, VEC_MUL_BOUND as int),
            t != 0,
            -VEC_MUL_BOUND <= t <= VEC_MUL_BOUND,
        ensures
            r.x == div_signed_spec(self.x * SCALE, t as int),
            r.y == div_signed_spec(self.y * SCALE, t as int),
            r.z == div_signed_spec(self.z * SCALE, t as int),
    {
        proof {
            lemma_abs_mul_le(self.x as int, SCALE as int, VEC_MUL_BOUND as int, SCALE as int);
            lemma_abs_mul_le(self.y as int, SCALE as int, VEC_MUL_BOUND as int, SCALE as int);
            lemma_abs_mul_le(self.z as int, SCALE as int, VEC_MUL_BOUND as int, SCALE as int);
        }
        Vector3D {
            x: div_signed(self.x * SCALE, t),
            y: div_signed(self.y * SCALE, t),
            z: div_signed(self.z * SCALE, t),
        }
    }

    /// The squared length in squared fixed-point units, kept exact.
    pub fn length_squared(&self) -> (r: i128)
        requires
            in_range(*self, VEC_MUL_BOUND as int),
        ensures
            r == len_sq_spec(*self),
            r >= 0,
    {
        proof {
            lemma_abs_mul_le(self.x as int, self.x as int, VEC_MUL_BOUND as int, VEC_MUL_BOUND as int);
            lemma_abs_mul_le(self.y as int, self.y as int, VEC_MUL_BOUND as int, VEC_MUL_BOUND as int);
            lemma_abs_mul_le(self.z as int, self.z as int, VEC_MUL_BOUND as int, VEC_MUL_BOUND as int);
            lemma_component_le_len(*self);
        }
        self.x * self.x + self.y * self.y + self.z * self.z
    }

    /// The length in fixed-point units, rounded down.
    pub fn length(&self) -> (r: i128)
        requires
            in_range(*self, VEC_MUL_BOUND as int),
        ensures
            r == sqrt_floor(len_sq_spec(*self)),
            is_sqrt(len_sq_spec(*self), r as int),
            r >= 0,
    {
        proof {
            lemma_abs_mul_le(self.x as int, self.x as int, VEC_MUL_BOUND as int, VEC_MUL_BOUND as int);
            lemma_abs_mul_le(self.y as int, self.y as int, VEC_MUL_BOUND as int, VEC_MUL_BOUND as int);
            lemma_abs_mul_le(self.z as int, self.z as int, VEC_MUL_BOUND as int, VEC_MUL_BOUND as int);
        }
        let sq = self.length_squared();
        let r = isqrt(sq as u128);
        proof {
            assert(r <= 9223372036854775808) by (nonlinear_arith)
                requires
                    (r as int) * (r as int) <= sq as int,
                    sq < 85070591730234615865843651857942052864,
                    r >= 0,
            ;
        }
        r as i128
    }

    /// Runtime check of the componentwise bound.
    pub fn check_in_range(&self, b: i128) -> (r: bool)
        requires
            b >= 0,
        ensures
            r == in_range(*self, b as int),
    {
        -b <= self.x && self.x <= b && -b <= self.y && self.y <= b && -b <= self.z && self.z <= b
    }

    /// True exactly when every component vanishes: a near-zero threshold of
    /// a hundredth of one fixed-point unit admits no nonzero integer, so at
    /// this resolution only the zero vector is near zero.
    pub fn is_near_zero(&self) -> (r: bool)
        ensures
            r == (self.x == 0 && self.y == 0 && self.z == 0),
    {
        self.x == 0 && self.y == 0 && self.z == 0
    }
}

/// Division rounding toward zero with a nonzero divisor of either sign.
pub open spec fn div_signed_spec(n: int, d: int) -> int {
    if d >= 0 {
        div_trunc_spec(n, d)
    } else {
        -div_trunc_spec(n, -d)
    }
}

pub fn div_signed(n: i128, d: i128) -> (r: i128)
    requires
        d != 0,
        -170141183460469231731687303715884105727 <= n,
        -170141183460469231731687303715884105727 <= d,
    ensures
        r == div_signed_spec(n as int, d as int),
{
    if d > 0 {
        div_trunc(n, d)
    } else {
        proof {
            crate::fixed::lemma_div_trunc_abs_le(
                if n >= 0 { n as int } else { -(n as int) },
                -(d as int),
                if n >= 0 { n as int } else { -(n as int) },
            );
        }
        -div_trunc(n, -d)
    }
}

/// Subtracts each component from a scalar.
pub fn scalar_sub(s: i128, v: Vector3D) -> (r: Vector3D)
    requires
        -VEC_ADD_BOUND <= s <= VEC_ADD_BOUND,
        in_range(v, VEC_ADD_BOUND as int),
    ensures
        r.x == s - v.x,
        r.y == s - v.y,
        r.z == s - v.z,
{
    Vector3D { x: s - v.x, y: s - v.y, z: s - v.z }
}

/// Product of a fixed-point scalar with a vector; commutes with `mul_s`.
pub fn scalar_mul(s: i128, v: Vector3D) -> (r: Vector3D)
    requires
        -VEC_MUL_BOUND <= s <= VEC_MUL_BOUND,
        in_range(v, VEC_MUL_BOUND as int),
    ensures
        r.x == div_trunc_spec(v.x * s, SCALE as int),
        r.y == div_trunc_spec(v.y * s, SCALE as int),
        r.z == div_trunc_spec(v.z * s, SCALE as int),
{
    v.mul_s(s)
}

/// The unit-length vector along v, in fixed-point units.
pub fn unit_vector(v: Vector3D) -> (r: Vector3D)
    requires
        in_range(v, VEC_MUL_BOUND as int),
        len_sq_spec(v) > 0,
    ensures
        r.x == div_trunc_spec(v.x * SCALE, sqrt_floor(len_sq_spec(v))),
        r.y == div_trunc_spec(v.y * SCALE, sqrt_floor(len_sq_spec(v))),
        r.z == div_trunc_spec(v.z * SCALE, sqrt_floor(len_sq_spec(v))),
        r == unit_spec(v),
        in_range(r, SCALE as int),
{
    let len = v.length();
    proof {
        let n = len_sq_spec(v);
        assert(len >= 1) by (nonlinear_arith)
            requires
                is_sqrt(n, len as int),
                n > 0,
        ;
        lemma_component_le_len(v);
        assert(-(len as int) <= v.x <= len as int) by (nonlinear_arith)
            requires
                is_sqrt(n, len as int),
                v.x * v.x <= n,
        ;
        assert(-(len as int) <= v.y <= len as int) by (nonlinear_arith)
            requires
                is_sqrt(n, len as int),
                v.y * v.y <= n,
        ;
        assert(-(len as int) <= v.z <= len as int) by (nonlinear_arith)
            requires
                is_sqrt(n, len as int),
                v.z * v.z <= n,
        ;
        lemma_abs_mul_le(v.x as int, SCALE as int, len as int, SCALE as int);
        lemma_abs_mul_le(v.y as int, SCALE as int, len as int, SCALE as int);
        lemma_abs_mul_le(v.z as int, SCALE as int, len as int, SCALE as int);
        lemma_div_trunc_quot_le(v.x * SCALE, len as int, SCALE as int);
        lemma_div_trunc_quot_le(v.y * SCALE, len as int, SCALE as int);
        lemma_div_trunc_quot_le(v.z * SCALE, len as int, SCALE as int);
    }
    Vector3D {
        x: div_trunc(v.x * SCALE, len),
        y: div_trunc(v.y * SCALE, len),
        z: div_trunc(v.z * SCALE, len),
    }
}

/// The squared multiple of the divisor that truncated division recovers for
/// one normalized component never exceeds the component's own square, and
/// falls short of it by at most 2 * SCALE * l * l.
proof fn lemma_sq_shrink(a: int, rr: int, l: int, s: int)
    by (nonlinear_arith)
    requires
        0 <= rr < l,
        rr <= a,
        a <= l * s,
        1 <= l,
        1 <= s,
    ensures
        (a - rr) * (a - rr) <= a * a,
        a * a - (a - rr) * (a - rr) <= 2 * s * (l * l),
{
}

proof fn lemma_unit_component_sq(x: int, l: int)
    requires
        1 <= l,
        -l <= x <= l,
    ensures
        ({
            let q = div_trunc_spec(x * SCALE, l);
            &&& (q * l) * (q * l) <= (x * SCALE) * (x * SCALE)
            &&& (x * SCALE) * (x * SCALE) - 2 * SCALE * (l * l) <= (q * l) * (q * l)
        }),
{
    let s = SCALE as int;
    let m = x * s;
    crate::fixed::lemma_div_trunc_rem(m, l);
    let q = div_trunc_spec(m, l);
    let r = m - q * l;
    assert(-(l * s) <= m <= l * s) by (nonlinear_arith)
        requires
            -l <= x <= l,
            m == x * s,
            s == 1_000_000int,
    ;
    if m >= 0 {
        crate::fixed::lemma_div_trunc_nonneg(m, l);
        assert(q * l >= 0) by (nonlinear_arith)
            requires
                q >= 0,
                l >= 1,
        ;
        lemma_sq_shrink(m, r, l, s);
        assert((q * l) * (q * l) == (m - r) * (m - r));
    } else {
        vstd::arithmetic::div_mod::lemma_div_pos_is_pos(-m, l);
        assert(q <= 0);
        assert(q * l <= 0) by (nonlinear_arith)
            requires
                q <= 0,
                l >= 1,
        ;
        lemma_sq_shrink(-m, -r, l, s);
        assert((q * l) * (q * l) == (-m - -r) * (-m - -r)) by (nonlinear_arith)
            requires
                r == m - q * l,
        ;
        assert(m * m == (-m) * (-m)) by (nonlinear_arith);
    }
}

/// Law: the unit vector of any vector at least one whole unit long has
/// length 1 within fixed-point tolerance: its squared length lies within a
/// few millionths of one squared unit.
pub proof fn lemma_unit_vector_near_unit_length(v: Vector3D)
    requires
        in_range(v, VEC_MUL_BOUND as int),
        len_sq_spec(v) >= SCALE * (SCALE as int),
    ensures
        SCALE * (SCALE as int) - 6 * SCALE <= len_sq_spec(unit_spec(v)),
        len_sq_spec(unit_spec(v)) <= SCALE * (SCALE as int) + 2 * SCALE + 1,
{
    let s = SCALE as int;
    let n = len_sq_spec(v);
    lemma_component_le_len(v);
    crate::fixed::lemma_sqrt_exists(n);
    let l = sqrt_floor(n);
    assert(is_sqrt(s * s, s)) by (nonlinear_arith)
        requires
            s == 1_000_000int,
    ;
    crate::fixed::lemma_sqrt_exists(s * s);
    crate::fixed::lemma_sqrt_unique(s * s, s, sqrt_floor(s * s));
    crate::fixed::lemma_sqrt_le(s * s, n);
    assert(l >= s);
    assert(-l <= v.x <= l && -l <= v.y <= l && -l <= v.z <= l) by (nonlinear_arith)
        requires
            is_sqrt(n, l),
            v.x * v.x <= n,
            v.y * v.y <= n,
            v.z * v.z <= n,
    ;
    lemma_unit_component_sq(v.x as int, l);
    lemma_unit_component_sq(v.y as int, l);
    lemma_unit_component_sq(v.z as int, l);
    let qx = div_trunc_spec(v.x * s, l);
    let qy = div_trunc_spec(v.y * s, l);
    let qz = div_trunc_spec(v.z * s, l);
    lemma_div_trunc_quot_le(v.x * s, l, s);
    lemma_div_trunc_quot_le(v.y * s, l, s);
    lemma_div_trunc_quot_le(v.z * s, l, s);
    let u = unit_spec(v);
    assert(u.x == qx && u.y == qy && u.z == qz);
    let usq = len_sq_spec(u);
    assert(usq == qx * qx + qy * qy + qz * qz);
    assert(l * l * (qx * qx) == (qx * l) * (qx * l)) by (nonlinear_arith);
    assert(l * l * (qy * qy) == (qy * l) * (qy * l)) by (nonlinear_arith);
    assert(l * l * (qz * qz) == (qz * l) * (qz * l)) by (nonlinear_arith);
    assert(l * l * usq == l * l * (qx * qx) + l * l * (qy * qy) + l * l * (qz * qz))
        by (nonlinear_arith)
        requires
            usq == qx * qx + qy * qy + qz * qz,
    ;
    assert((v.x * s) * (v.x * s) == s * s * (v.x * v.x)) by (nonlinear_arith);
    assert((v.y * s) * (v.y * s) == s * s * (v.y * v.y)) by (nonlinear_arith);
    assert((v.z * s) * (v.z * s) == s * s * (v.z * v.z)) by (nonlinear_arith);
    assert(s * s * (v.x * v.x) + s * s * (v.y * v.y) + s * s * (v.z * v.z) == s * s * n)
        by (nonlinear_arith)
        requires
            n == v.x * v.x + v.y * v.y + v.z * v.z,
    ;
    assert(l * l * usq <= s * s * n);
    assert(s * s * n - 6 * s * (l * l) <= l * l * usq);
    assert(s * s * n <= s * s * ((l + 1) * (l + 1))) by (nonlinear_arith)
        requires
            n < (l + 1) * (l + 1),
            s == 1_000_000int,
    ;
    assert(s * s * ((l + 1) * (l + 1)) <= l * l * (s * s + 2 * s + 1)) by (nonlinear_arith)
        requires
            l >= s,
            s == 1_000_000int,
    ;
    assert(usq <= s * s + 2 * s + 1) by (nonlinear_arith)
        requires
            l * l * usq <= l * l * (s * s + 2 * s + 1),
            l >= 1,
    ;
    assert(s * s * n >= s * s * (l * l)) by (nonlinear_arith)
        requires
            n >= l * l,
            s == 1_000_000int,
    ;
    assert(l * l * (s * s - 6 * s) <= l * l * usq) by (nonlinear_arith)
        requires
            s * s * (l * l) - 6 * s * (l * l) <= l * l * usq,
    ;
    assert(s * s - 6 * s <= usq) by (nonlinear_arith)
        requires
            l * l * (s * s - 6 * s) <= l * l * usq,
            l >= 1,
    ;
}

/// Relies on rand's thread_rng and Rng::gen_range: a uniformly distributed
/// value in [lo, hi); gen_range panics only when the range is empty.
#[verifier::external_body]
pub(crate) fn rand_in_range(lo: i64, hi: i64) -> (r: i64)
    requires
        lo < hi,
    ensures
        lo <= r < hi,
{
    rand::thread_rng().gen_range(lo..hi)
}

/// A vector with components drawn uniformly from [min, max).
fn random(min: i64, max: i64) -> (r: Vector3D)
    requires
        min < max,
    ensures
        min <= r.x < max,
        min <= r.y < max,
        min <= r.z < max,
{
    Vector3D {
        x: rand_in_range(min, max) as i128,
        y: rand_in_range(min, max) as i128,
        z: rand_in_range(min, max) as i128,
    }
}

/// A nonzero vector strictly inside the unit sphere, by rejection sampling
/// over the bounding cube; after too many rejections it falls back to a
/// fixed interior vector so that the routine provably terminates.
pub fn random_in_unit_sphere() -> (r: Vector3D)
    ensures
        in_range(r, SCALE as int),
        0 < len_sq_spec(r) < SCALE * SCALE,
{
    let mut attempts: u32 = 0;
    while attempts < 1000
        invariant
            attempts <= 1000,
        decreases 1000 - attempts,
    {
        let p = random(-1_000_000, 1_000_001);
        let sq = p.length_squared();
        if 0 < sq && sq < SCALE * SCALE {
            return p;
        }
        attempts = attempts + 1;
    }
    let fallback = Vector3D { x: 500_000, y: 0, z: 0 };
    proof {
        assert(len_sq_spec(fallback) == 250_000_000_000int) by (nonlinear_arith)
            requires
                fallback.x == 500_000int && fallback.y == 0int && fallback.z == 0int,
        ;
    }
    fallback
}

/// The unit-length vector along a random interior vector.
pub fn random_unit_vector() -> (r: Vector3D)
    ensures
        in_range(r, SCALE as int),
{
    unit_vector(random_in_unit_sphere())
}

impl Color {
    /// The three 8-bit-scaled channels, space-separated: each channel is the
    /// fixed-point value times 255.999, truncated to an integer.
    pub fn get_color(&self) -> (r: String)
        requires
            0 <= self.x <= 10_000_000_000_000,
            0 <= self.y <= 10_000_000_000_000,
            0 <= self.z <= 10_000_000_000_000,
        ensures
            r@ == dec_rep(div_trunc_spec(self.x * 255_999, 1_000_000_000)) + seq![' ']
                + dec_rep(div_trunc_spec(self.y * 255_999, 1_000_000_000)) + seq![' ']
                + dec_rep(div_trunc_spec(self.z * 255_999, 1_000_000_000)),
    {
        proof {
            lemma_abs_mul_le(self.x as int, 255_999, 10_000_000_000_000, 255_999);
            lemma_abs_mul_le(self.y as int, 255_999, 10_000_000_000_000, 255_999);
            lemma_abs_mul_le(self.z as int, 255_999, 10_000_000_000_000, 255_999);
            lemma_div_trunc_quot_le(self.x * 255_999, 1_000_000_000, 2_560_000_000);
            lemma_div_trunc_quot_le(self.y * 255_999, 1_000_000_000, 2_560_000_000);
            lemma_div_trunc_quot_le(self.z * 255_999, 1_000_000_000, 2_560_000_000);
            crate::fixed::lemma_div_trunc_nonneg(self.x * 255_999, 1_000_000_000);
            crate::fixed::lemma_div_trunc_nonneg(self.y * 255_999, 1_000_000_000);
            crate::fixed::lemma_div_trunc_nonneg(self.z * 255_999, 1_000_000_000);
        }
        let cx = div_trunc(self.x * 255_999, 1_000_000_000) as u32;
        let cy = div_trunc(self.y * 255_999, 1_000_000_000) as u32;
        let cz = div_trunc(self.z * 255_999, 1_000_000_000) as u32;
        let mut s = String::new();
        push_decimal(&mut s, cx);
        s.append(" ");
        push_decimal(&mut s, cy);
        s.append(" ");
        push_decimal(&mut s, cz);
        proof {
            reveal_strlit(" ");
            assert(" "@ =~= seq![' ']);
            assert(s@ =~= dec_rep(div_trunc_spec(self.x * 255_999, 1_000_000_000)) + seq![' ']
                + dec_rep(div_trunc_spec(self.y * 255_999, 1_000_000_000)) + seq![' ']
                + dec_rep(div_trunc_spec(self.z * 255_999, 1_000_000_000)));
        }
        s
    }
}

} // verus!
