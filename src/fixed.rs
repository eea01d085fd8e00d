//! Fixed-point scalars: a length, an angle or a speed is an integer count of
//! `1 / ONE` parts of its unit. Products and quotients truncate toward zero,
//! so that negating an operand negates the result exactly.
use vstd::prelude::*;

verus! {

/// Number of fixed-point parts in one unit.
pub const ONE: i64 = 65536;

/// Largest magnitude of a world coordinate, a world bound or a camera
/// position that the library accepts: 256 units.
pub const COORD_MAX: i64 = 16777216;

/// Largest magnitude of a product of two scalars whose fixed-point result
/// is summed with three others into an `i64` (2^76).
pub open spec fn prod_max() -> int {
    0x1000_0000_0000_0000_0000
}

/// `a / d` rounded toward zero, for `d > 0`.
pub open spec fn tdiv(a: int, d: int) -> int {
    if a >= 0 {
        a / d
    } else {
        -((-a) / d)
    }
}

/// `a / d` rounded toward zero, for `d != 0`.
pub open spec fn sdiv(a: int, d: int) -> int {
    if d > 0 {
        tdiv(a, d)
    } else {
        tdiv(-a, -d)
    }
}

/// Fixed-point product.
#[verifier::opaque]
pub open spec fn fmul(a: int, b: int) -> int {
    tdiv(a * b, ONE as int)
}

/// Fixed-point quotient.
pub open spec fn fdiv(a: int, b: int) -> int {
    sdiv(a * ONE, b)
}

pub open spec fn abs(a: int) -> int {
    if a >= 0 {
        a
    } else {
        -a
    }
}

pub proof fn lemma_tdiv_bound(a: int, d: int, bound: int)
    requires
        d > 0,
        abs(a) <= bound,
    ensures
        abs(tdiv(a, d)) <= bound / d,
        tdiv(-a, d) == -tdiv(a, d),
{
    if a >= 0 {
        vstd::arithmetic::div_mod::lemma_div_is_ordered(a, bound, d);
        vstd::arithmetic::div_mod::lemma_div_pos_is_pos(a, d);
    } else {
        vstd::arithmetic::div_mod::lemma_div_is_ordered(-a, bound, d);
        vstd::arithmetic::div_mod::lemma_div_pos_is_pos(-a, d);
    }
    if a == 0 {
        assert(0int / d == 0) by {
            vstd::arithmetic::div_mod::lemma_div_of0(d);
        }
    }
}

pub proof fn lemma_mul_abs_bound(a: int, b: int, x: int, y: int)
    requires
        abs(a) <= x,
        abs(b) <= y,
    ensures
        abs(a * b) <= x * y,
{
    assert(abs(a * b) == abs(a) * abs(b)) by (nonlinear_arith);
    assert(abs(a) * abs(b) <= x * y) by (nonlinear_arith)
        requires
            0 <= abs(a) <= x,
            0 <= abs(b) <= y,
    ;
}

pub proof fn lemma_mul_le(x: int, y: int, a: int, b: int)
    requires
        0 <= x <= a,
        0 <= y <= b,
    ensures
        x * y <= a * b,
{
    assert(x * y <= a * b) by (nonlinear_arith)
        requires
            0 <= x <= a,
            0 <= y <= b,
    ;
}

/// Bound on a fixed-point product from bounds on its factors.
pub proof fn lemma_fmul_bound(a: int, b: int, x: int, y: int)
    requires
        abs(a) <= x,
        abs(b) <= y,
    ensures
        abs(fmul(a, b)) <= (x * y) / (ONE as int),
{
    reveal(fmul);
    lemma_mul_abs_bound(a, b, x, y);
    lemma_tdiv_bound(a * b, ONE as int, x * y);
}

/// Products by one and by zero.
pub proof fn lemma_fmul_unit(x: int)
    ensures
        fmul(x, ONE as int) == x,
        fmul(ONE as int, x) == x,
        fmul(x, 0) == 0,
        fmul(0, x) == 0,
{
    reveal(fmul);
    let one = ONE as int;
    assert(x * one == one * x) by (nonlinear_arith);
    if x >= 0 {
        vstd::arithmetic::div_mod::lemma_div_by_multiple(x, one);
    } else {
        vstd::arithmetic::div_mod::lemma_div_by_multiple(-x, one);
        assert((-x) * one == -(x * one)) by (nonlinear_arith);
    }
    assert(x * 0 == 0 && 0 * x == 0) by (nonlinear_arith);
    vstd::arithmetic::div_mod::lemma_div_basics(one);
}

/// The fixed-point product commutes and takes signs out.
pub proof fn lemma_fmul_sign(a: int, b: int)
    ensures
        fmul(a, b) == fmul(b, a),
        fmul(a, -b) == -fmul(a, b),
        fmul(-a, b) == -fmul(a, b),
{
    reveal(fmul);
    assert(a * b == b * a && a * (-b) == -(a * b) && (-a) * b == -(a * b)) by (nonlinear_arith);
    lemma_tdiv_bound(a * b, ONE as int, abs(a * b));
}

/// `a / d` rounded toward zero; `d` is not zero.
pub fn div_trunc(a: i128, d: i128) -> (r: i128)
    requires
        d != 0,
        a > i128::MIN,
        d > i128::MIN,
    ensures
        r == sdiv(a as int, d as int),
        abs(r as int) <= abs(a as int),
{
    let n: i128 = if d > 0 { a } else { -a };
    let m: i128 = if d > 0 { d } else { -d };
    proof {
        lemma_tdiv_bound(n as int, m as int, abs(n as int));
        vstd::arithmetic::div_mod::lemma_div_is_ordered_by_denominator(abs(n as int), 1, m as int);
        vstd::arithmetic::div_mod::lemma_div_basics(abs(n as int));
    }
    if n >= 0 {
        n / m
    } else {
        -((-n) / m)
    }
}

/// Fixed-point product of `a` and `b`.
pub fn fx_mul(a: i64, b: i64) -> (r: i64)
    requires
        abs(a * b) <= prod_max(),
    ensures
        r == fmul(a as int, b as int),
        abs(r as int) <= prod_max() / (ONE as int),
{
    let p: i128 = (a as i128) * (b as i128);
    proof {
        reveal(fmul);
        lemma_tdiv_bound(p as int, ONE as int, prod_max());
    }
    div_trunc(p, ONE as i128) as i64
}

/// Fixed-point quotient of `a` by `b`; `b` is not zero.
pub fn fx_div(a: i64, b: i64) -> (r: i128)
    requires
        b != 0,
    ensures
        r == fdiv(a as int, b as int),
{
    let n: i128 = (a as i128) * (ONE as i128);
    assert(n > i128::MIN) by (nonlinear_arith)
        requires
            n == a * 65536,
            a >= i64::MIN,
    ;
    div_trunc(n, b as i128)
}


/// A fixed-point product is the exact product, divided by one part, up to
/// less than one part.
pub proof fn lemma_fmul_approx(a: int, b: int)
    ensures
        abs(a * b - ONE * fmul(a, b)) < ONE,
{
    reveal(fmul);
    let one = ONE as int;
    if a * b >= 0 {
        vstd::arithmetic::div_mod::lemma_fundamental_div_mod(a * b, one);
        vstd::arithmetic::div_mod::lemma_mod_pos_bound(a * b, one);
    } else {
        vstd::arithmetic::div_mod::lemma_fundamental_div_mod(-(a * b), one);
        vstd::arithmetic::div_mod::lemma_mod_pos_bound(-(a * b), one);
    }
}

/// Turning the pair `(y, z)` by the rounded angle `(c, s)` and back gives
/// it back within `(6 |y| + 6) / ONE` parts, and likewise for `z`: the
/// error of the squared length, at most six parts, scales the coordinate,
/// and each of the three roundings of a coordinate costs less than a part.
pub proof fn lemma_pair_round_trip(c: int, s: int, y: int, z: int)
    requires
        abs(c) <= ONE,
        abs(s) <= ONE,
        ONE - 4 <= fmul(c, c) + fmul(s, s) <= ONE + 4,
    ensures
        ({
            let y1 = fmul(c, y) + fmul(-s, z);
            let z1 = fmul(s, y) + fmul(c, z);
            let y2 = fmul(c, y1) + fmul(s, z1);
            let z2 = fmul(-s, y1) + fmul(c, z1);
            &&& ONE * abs(y2 - y) < 6 * abs(y) + 6 * ONE
            &&& ONE * abs(z2 - z) < 6 * abs(z) + 6 * ONE
        }),
{
    let one = ONE as int;
    let y1 = fmul(c, y) + fmul(-s, z);
    let z1 = fmul(s, y) + fmul(c, z);
    let y2 = fmul(c, y1) + fmul(s, z1);
    let z2 = fmul(-s, y1) + fmul(c, z1);
    lemma_fmul_approx(c, y);
    lemma_fmul_approx(-s, z);
    lemma_fmul_approx(s, y);
    lemma_fmul_approx(c, z);
    lemma_fmul_approx(c, y1);
    lemma_fmul_approx(s, z1);
    lemma_fmul_approx(-s, y1);
    lemma_fmul_approx(c, z1);
    lemma_fmul_approx(c, c);
    lemma_fmul_approx(s, s);
    assert((-s) * z == -(s * z) && (-s) * y1 == -(s * y1)) by (nonlinear_arith);
    let e1 = one * y1 - (c * y - s * z);
    let e2 = one * z1 - (s * y + c * z);
    let e3 = one * y2 - (c * y1 + s * z1);
    let e4 = one * z2 - (-(s * y1) + c * z1);
    assert(abs(e1) < 2 * one && abs(e2) < 2 * one && abs(e3) < 2 * one && abs(e4) < 2 * one);
    let n = c * c + s * s;
    assert(abs(n - one * one) < 6 * one);
    assert(one * one * y2 == c * (one * y1) + s * (one * z1) + one * e3) by (nonlinear_arith)
        requires
            one * y2 == c * y1 + s * z1 + e3,
    ;
    assert(c * (one * y1) == c * c * y - c * s * z + c * e1) by (nonlinear_arith)
        requires
            one * y1 == c * y - s * z + e1,
    ;
    assert(s * (one * z1) == s * s * y + s * c * z + s * e2) by (nonlinear_arith)
        requires
            one * z1 == s * y + c * z + e2,
    ;
    assert(c * s * z == s * c * z && n * y == c * c * y + s * s * y) by (nonlinear_arith)
        requires
            n == c * c + s * s,
    ;
    assert(one * one * y2 == n * y + c * e1 + s * e2 + one * e3);
    assert(one * one * z2 == (-s) * (one * y1) + c * (one * z1) + one * e4) by (nonlinear_arith)
        requires
            one * z2 == -(s * y1) + c * z1 + e4,
    ;
    assert((-s) * (one * y1) == -(s * c * y) + s * s * z - s * e1) by (nonlinear_arith)
        requires
            one * y1 == c * y - s * z + e1,
    ;
    assert(c * (one * z1) == c * s * y + c * c * z + c * e2) by (nonlinear_arith)
        requires
            one * z1 == s * y + c * z + e2,
    ;
    assert(c * s * y == s * c * y && n * z == c * c * z + s * s * z) by (nonlinear_arith)
        requires
            n == c * c + s * s,
    ;
    assert(one * one * z2 == n * z - s * e1 + c * e2 + one * e4);
    lemma_mul_abs_bound(n - one * one, y, 6 * one, abs(y));
    lemma_mul_abs_bound(n - one * one, z, 6 * one, abs(z));
    lemma_mul_abs_bound(c, e1, one, 2 * one);
    lemma_mul_abs_bound(s, e2, one, 2 * one);
    lemma_mul_abs_bound(s, e1, one, 2 * one);
    lemma_mul_abs_bound(c, e2, one, 2 * one);
    assert(abs(one * e3) < one * (2 * one) && abs(one * e4) < one * (2 * one)) by (nonlinear_arith)
        requires
            abs(e3) < 2 * one,
            abs(e4) < 2 * one,
            one == 65536,
    ;
    assert(one * one * (y2 - y) == (n - one * one) * y + c * e1 + s * e2 + one * e3) by (nonlinear_arith)
        requires
            one * one * y2 == n * y + c * e1 + s * e2 + one * e3,
    ;
    assert(one * one * (z2 - z) == (n - one * one) * z - s * e1 + c * e2 + one * e4) by (nonlinear_arith)
        requires
            one * one * z2 == n * z - s * e1 + c * e2 + one * e4,
    ;
    assert(one * (one * abs(y2 - y)) < one * (6 * abs(y) + 6 * one)) by (nonlinear_arith)
        requires
            abs(one * one * (y2 - y)) < 6 * one * abs(y) + 6 * one * one,
            one == 65536,
    ;
    assert(one * (one * abs(z2 - z)) < one * (6 * abs(z) + 6 * one)) by (nonlinear_arith)
        requires
            abs(one * one * (z2 - z)) < 6 * one * abs(z) + 6 * one * one,
            one == 65536,
    ;
    assert(one * abs(y2 - y) < 6 * abs(y) + 6 * one) by (nonlinear_arith)
        requires
            one * (one * abs(y2 - y)) < one * (6 * abs(y) + 6 * one),
            one > 0,
    ;
    assert(one * abs(z2 - z) < 6 * abs(z) + 6 * one) by (nonlinear_arith)
        requires
            one * (one * abs(z2 - z)) < one * (6 * abs(z) + 6 * one),
            one > 0,
    ;
}

} // verus!
