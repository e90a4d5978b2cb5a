use vstd::prelude::*;

verus! {

/// Fixed-point units per whole unit: every geometric quantity in this crate
/// is an integer counted in millionths.
pub const SCALE: i128 = 1_000_000;

/// Largest magnitude accepted for a position component.
pub const POS_BOUND: i128 = 34_359_738_368;

/// Largest magnitude accepted for a ray-direction component.
pub const DIR_BOUND: i128 = 33_554_432;

/// Largest magnitude accepted for a surface-normal component handed to a material.
pub const NORM_BOUND: i128 = 16_777_216;

/// Largest magnitude accepted for a sphere-center component or radius.
pub const GEOM_BOUND: i128 = 1_073_741_824;

/// Upper ray-parameter bound standing in for infinity.
pub const T_MAX: i128 = 4_294_967_296;

/// Lower ray-parameter bound used by the integrator to avoid self-intersection.
pub const T_MIN_HIT: i128 = 1_000;

/// Division that rounds toward zero, as the quotient of two measurements.
pub open spec fn div_trunc_spec(n: int, d: int) -> int {
    if n >= 0 {
        n / d
    } else {
        -((-n) / d)
    }
}

/// |a| <= aa and |b| <= bb bound the product a * b by aa * bb.
pub proof fn lemma_abs_mul_le(a: int, b: int, aa: int, bb: int)
    by (nonlinear_arith)
    requires
        -aa <= a <= aa,
        -bb <= b <= bb,
        0 <= aa,
        0 <= bb,
    ensures
        -(aa * bb) <= a * b <= aa * bb,
{
}

/// A quotient rounded toward zero never grows past the numerator's magnitude.
pub proof fn lemma_div_trunc_abs_le(n: int, d: int, m: int)
    by (nonlinear_arith)
    requires
        1 <= d,
        0 <= m,
        -m <= n <= m,
    ensures
        -m <= div_trunc_spec(n, d) <= m,
{
}

/// If |n| <= d * q then the truncated quotient of n by d stays within [-q, q].
pub proof fn lemma_div_trunc_quot_le(n: int, d: int, q: int)
    by (nonlinear_arith)
    requires
        1 <= d,
        0 <= q,
        -(d * q) <= n <= d * q,
    ensures
        -q <= div_trunc_spec(n, d) <= q,
{
}

/// Truncated division is monotone in the numerator.
pub proof fn lemma_div_trunc_monotone(n1: int, n2: int, d: int)
    requires
        1 <= d,
        n1 <= n2,
    ensures
        div_trunc_spec(n1, d) <= div_trunc_spec(n2, d),
{
    if n1 >= 0 {
        vstd::arithmetic::div_mod::lemma_div_is_ordered(n1, n2, d);
    } else if n2 < 0 {
        vstd::arithmetic::div_mod::lemma_div_is_ordered(-n2, -n1, d);
    } else {
        vstd::arithmetic::div_mod::lemma_div_pos_is_pos(-n1, d);
        vstd::arithmetic::div_mod::lemma_div_pos_is_pos(n2, d);
    }
}

/// Division by d recovers a multiple of d exactly.
pub proof fn lemma_div_trunc_exact(q: int, d: int)
    requires
        1 <= d,
    ensures
        div_trunc_spec(q * d, d) == q,
{
    if q >= 0 {
        vstd::arithmetic::div_mod::lemma_div_multiples_vanish(q, d);
        assert(q * d == d * q) by (nonlinear_arith);
    } else {
        vstd::arithmetic::div_mod::lemma_div_multiples_vanish(-q, d);
        assert(-(q * d) == d * (-q)) by (nonlinear_arith);
    }
}

/// A numerator short of d * (q + 1) divides to at most q.
pub proof fn lemma_div_trunc_lt(n: int, d: int, q: int)
    by (nonlinear_arith)
    requires
        1 <= d,
        0 <= n,
        0 <= q,
        n < d * (q + 1),
    ensures
        div_trunc_spec(n, d) <= q,
{
}

/// A numerator of at least d * q divides to at least q.
pub proof fn lemma_div_trunc_ge(n: int, d: int, q: int)
    by (nonlinear_arith)
    requires
        1 <= d,
        0 <= q,
        d * q <= n,
    ensures
        q <= div_trunc_spec(n, d),
{
}

/// A nonnegative numerator gives a nonnegative truncated quotient.
pub proof fn lemma_div_trunc_nonneg(n: int, d: int)
    by (nonlinear_arith)
    requires
        1 <= d,
        0 <= n,
    ensures
        0 <= div_trunc_spec(n, d),
{
}

pub fn div_trunc(n: i128, d: i128) -> (r: i128)
    requires
        1 <= d,
        -170141183460469231731687303715884105727 <= n,
    ensures
        r == div_trunc_spec(n as int, d as int),
{
    if n >= 0 {
        n / d
    } else {
        proof {
            lemma_div_trunc_nonneg(-(n as int), d as int);
            lemma_div_trunc_abs_le(-(n as int), d as int, -(n as int));
        }
        -((-n) / d)
    }
}

/// The truncated quotient's multiple of the divisor falls short of the
/// numerator by less than the divisor, on the numerator's own side of zero.
pub proof fn lemma_div_trunc_rem(m: int, d: int)
    requires
        1 <= d,
    ensures
        m >= 0 ==> 0 <= m - div_trunc_spec(m, d) * d < d,
        m < 0 ==> -d < m - div_trunc_spec(m, d) * d <= 0,
{
    if m >= 0 {
        vstd::arithmetic::div_mod::lemma_fundamental_div_mod(m, d);
        vstd::arithmetic::div_mod::lemma_mod_bound(m, d);
        assert(d * (m / d) == (m / d) * d) by (nonlinear_arith);
    } else {
        vstd::arithmetic::div_mod::lemma_fundamental_div_mod(-m, d);
        vstd::arithmetic::div_mod::lemma_mod_bound(-m, d);
        assert(m - (-((-m) / d)) * d == -((-m) - ((-m) / d) * d)) by (nonlinear_arith);
        assert(d * ((-m) / d) == ((-m) / d) * d) by (nonlinear_arith);
    }
}

/// r is the integer square root of n rounded down.
pub open spec fn is_sqrt(n: int, r: int) -> bool {
    0 <= r && r * r <= n && n < (r + 1) * (r + 1)
}

/// The integer square root, rounded down.
pub open spec fn sqrt_floor(n: int) -> int {
    choose|r: int| is_sqrt(n, r)
}

pub proof fn lemma_sqrt_unique(n: int, r1: int, r2: int)
    by (nonlinear_arith)
    requires
        is_sqrt(n, r1),
        is_sqrt(n, r2),
    ensures
        r1 == r2,
{
}

pub proof fn lemma_sqrt_exists(n: int)
    requires
        0 <= n,
    ensures
        is_sqrt(n, sqrt_floor(n)),
    decreases n,
{
    if n == 0 {
        assert(is_sqrt(0, 0));
    } else {
        lemma_sqrt_exists(n - 1);
        let r = sqrt_floor(n - 1);
        assert(is_sqrt(n - 1, r));
        if n < (r + 1) * (r + 1) {
            assert(is_sqrt(n, r));
        } else {
            assert(n == (r + 1) * (r + 1));
            assert(is_sqrt(n, r + 1)) by (nonlinear_arith)
                requires
                    n == (r + 1) * (r + 1),
                    0 <= r,
            ;
        }
        assert(exists|w: int| is_sqrt(n, w));
    }
}

/// Both square-root bounds move with the operand.
pub proof fn lemma_sqrt_le(a: int, b: int)
    requires
        0 <= a <= b,
    ensures
        sqrt_floor(a) <= sqrt_floor(b),
{
    lemma_sqrt_exists(a);
    lemma_sqrt_exists(b);
    let ra = sqrt_floor(a);
    let rb = sqrt_floor(b);
    if ra > rb {
        assert(false) by (nonlinear_arith)
            requires
                is_sqrt(a, ra),
                is_sqrt(b, rb),
                a <= b,
                ra > rb,
        ;
    }
}

pub fn isqrt(n: u128) -> (r: u128)
    requires
        n < 85070591730234615865843651857942052864,
    ensures
        r == sqrt_floor(n as int),
        is_sqrt(n as int, r as int),
{
    let mut lo: u128 = 0;
    let mut hi: u128 = 9223372036854775808;
    proof {
        assert((9223372036854775808 as int) * (9223372036854775808 as int)
            == 85070591730234615865843651857942052864int) by (nonlinear_arith);
    }
    while lo + 1 < hi
        invariant
            lo < hi <= 9223372036854775808,
            (lo as int) * (lo as int) <= n as int,
            (n as int) < (hi as int) * (hi as int),
        decreases hi - lo,
    {
        let mid = lo + (hi - lo) / 2;
        assert(lo < mid < hi);
        proof {
            lemma_abs_mul_le(mid as int, mid as int, 9223372036854775808, 9223372036854775808);
        }
        if mid * mid <= n {
            lo = mid;
        } else {
            hi = mid;
        }
    }
    proof {
        assert(hi == lo + 1);
        assert(is_sqrt(n as int, lo as int));
        lemma_sqrt_exists(n as int);
        lemma_sqrt_unique(n as int, lo as int, sqrt_floor(n as int));
    }
    lo
}

} // verus!
