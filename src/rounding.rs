//! Exact cube rounding of fractional cube coordinates.
//!
//! A fractional coordinate is written as a numerator over a shared positive
//! denominator, so rounding is exact and ties are decided the same way every
//! time: each axis rounds half away from zero, and the axis with the largest
//! rounding error is recomputed from the other two.
use vstd::prelude::*;
use crate::coord::magnitude;

verus! {

/// Largest numerator magnitude accepted by [`cube_round`].
pub const ROUND_NUMERATOR_LIMIT: i64 = 1125899906842624;

/// Largest denominator accepted by [`cube_round`].
pub const ROUND_DENOMINATOR_LIMIT: i64 = 1099511627776;

/// `n / d` rounded to the nearest integer, halves away from zero (`d > 0`).
pub open spec fn round_div(n: int, d: int) -> int {
    if n >= 0 {
        (2 * n + d) / (2 * d)
    } else {
        -((d - 2 * n) / (2 * d))
    }
}

/// Rounding error of `round_div(n, d)`, scaled by `d`.
pub open spec fn round_error(n: int, d: int) -> int {
    magnitude(round_div(n, d) * d - n)
}

/// Cube rounding of the point `(nq / d, nr / d, ns / d)`.
pub open spec fn cube_round_spec(nq: int, nr: int, ns: int, d: int) -> (int, int, int) {
    let q = round_div(nq, d);
    let r = round_div(nr, d);
    let s = round_div(ns, d);
    let eq = round_error(nq, d);
    let er = round_error(nr, d);
    let es = round_error(ns, d);
    if eq > er && eq > es {
        (-r - s, r, s)
    } else if er > es {
        (q, -q - s, s)
    } else {
        (q, r, -q - r)
    }
}

/// The arguments accepted by [`cube_round`].
pub open spec fn round_args_ok(nq: int, nr: int, ns: int, d: int) -> bool {
    &&& nq + nr + ns == 0
    &&& 1 <= d <= ROUND_DENOMINATOR_LIMIT
    &&& magnitude(nq) <= ROUND_NUMERATOR_LIMIT
    &&& magnitude(nr) <= ROUND_NUMERATOR_LIMIT
    &&& magnitude(ns) <= ROUND_NUMERATOR_LIMIT
}

/// Rounding half away from zero lands within half a unit of the exact value.
pub proof fn lemma_round_div_nearest(n: int, d: int)
    requires
        d > 0,
    ensures
        2 * round_error(n, d) <= d,
        -d <= 2 * (round_div(n, d) * d - n) <= d,
{
    let m = 2 * d;
    if n >= 0 {
        let x = 2 * n + d;
        vstd::arithmetic::div_mod::lemma_fundamental_div_mod(x, m);
        vstd::arithmetic::div_mod::lemma_mod_bound(x, m);
        let k = x / m;
        assert(round_div(n, d) == k);
        assert(m * k == 2 * (k * d)) by (nonlinear_arith)
            requires
                m == 2 * d,
        ;
    } else {
        let x = d - 2 * n;
        vstd::arithmetic::div_mod::lemma_fundamental_div_mod(x, m);
        vstd::arithmetic::div_mod::lemma_mod_bound(x, m);
        let k = x / m;
        assert(round_div(n, d) == -k);
        assert(m * k == 2 * (k * d)) by (nonlinear_arith)
            requires
                m == 2 * d,
        ;
        assert((-k) * d == -(k * d)) by (nonlinear_arith);
    }
}

/// An exact multiple of the denominator rounds to itself with no error.
pub proof fn lemma_round_div_exact(k: int, d: int)
    requires
        d > 0,
    ensures
        round_div(k * d, d) == k,
        round_error(k * d, d) == 0,
{
    let m = 2 * d;
    if k * d >= 0 {
        assert(k >= 0) by (nonlinear_arith)
            requires
                k * d >= 0,
                d > 0,
        ;
        assert(2 * (k * d) + d == k * m + d) by (nonlinear_arith)
            requires
                m == 2 * d,
        ;
        vstd::arithmetic::div_mod::lemma_fundamental_div_mod_converse(2 * (k * d) + d, m, k, d);
    } else {
        assert(k < 0) by (nonlinear_arith)
            requires
                k * d < 0,
                d > 0,
        ;
        assert(d - 2 * (k * d) == (-k) * m + d) by (nonlinear_arith)
            requires
                m == 2 * d,
        ;
        vstd::arithmetic::div_mod::lemma_fundamental_div_mod_converse(d - 2 * (k * d), m, -k, d);
    }
}

/// Cube rounding keeps the zero sum, moves the two kept axes by at most half
/// a unit and the recomputed axis by at most one unit.
pub proof fn lemma_cube_round_near(nq: int, nr: int, ns: int, d: int)
    requires
        nq + nr + ns == 0,
        d > 0,
    ensures
        ({
            let (q, r, s) = cube_round_spec(nq, nr, ns, d);
            &&& q + r + s == 0
            &&& magnitude(q * d - nq) <= d
            &&& magnitude(r * d - nr) <= d
            &&& magnitude(s * d - ns) <= d
        }),
{
    lemma_round_div_nearest(nq, d);
    lemma_round_div_nearest(nr, d);
    lemma_round_div_nearest(ns, d);
    let q = round_div(nq, d);
    let r = round_div(nr, d);
    let s = round_div(ns, d);
    assert((-r - s) * d == -(r * d) - s * d) by (nonlinear_arith);
    assert((-q - s) * d == -(q * d) - s * d) by (nonlinear_arith);
    assert((-q - r) * d == -(q * d) - r * d) by (nonlinear_arith);
}

/// Cube rounding of a point that already is a hex centre returns that hex.
pub proof fn lemma_cube_round_exact(kq: int, kr: int, d: int)
    requires
        d > 0,
    ensures
        cube_round_spec(kq * d, kr * d, (-kq - kr) * d, d) == (kq, kr, -kq - kr),
{
    lemma_round_div_exact(kq, d);
    lemma_round_div_exact(kr, d);
    lemma_round_div_exact(-kq - kr, d);
}

fn round_div_exec(n: i64, d: i64) -> (k: i64)
    requires
        1 <= d <= ROUND_DENOMINATOR_LIMIT,
        magnitude(n as int) <= ROUND_NUMERATOR_LIMIT,
    ensures
        k == round_div(n as int, d as int),
        magnitude(k as int) <= ROUND_NUMERATOR_LIMIT + 1,
{
    proof {
        lemma_round_div_nearest(n as int, d as int);
        let k = round_div(n as int, d as int);
        assert(magnitude(k) <= ROUND_NUMERATOR_LIMIT + 1) by (nonlinear_arith)
            requires
                d >= 1,
                -d <= 2 * (k * d - n) <= d,
                magnitude(n as int) <= ROUND_NUMERATOR_LIMIT,
        ;
    }
    if n >= 0 {
        (2 * n + d) / (2 * d)
    } else {
        -((d - 2 * n) / (2 * d))
    }
}

/// Rounds the fractional cube point `(nq / d, nr / d, ns / d)` to a hex.
pub fn cube_round(nq: i64, nr: i64, ns: i64, d: i64) -> (h: (i64, i64, i64))
    requires
        round_args_ok(nq as int, nr as int, ns as int, d as int),
    ensures
        (h.0 as int, h.1 as int, h.2 as int) == cube_round_spec(
            nq as int,
            nr as int,
            ns as int,
            d as int,
        ),
        h.0 + h.1 + h.2 == 0,
{
    let q = round_div_exec(nq, d);
    let r = round_div_exec(nr, d);
    let s = round_div_exec(ns, d);
    proof {
        lemma_round_div_nearest(nq as int, d as int);
        lemma_round_div_nearest(nr as int, d as int);
        lemma_round_div_nearest(ns as int, d as int);
    }
    let eq = q * d - nq;
    let er = r * d - nr;
    let es = s * d - ns;
    let eq = if eq < 0 {
        -eq
    } else {
        eq
    };
    let er = if er < 0 {
        -er
    } else {
        er
    };
    let es = if es < 0 {
        -es
    } else {
        es
    };
    if eq > er && eq > es {
        (-r - s, r, s)
    } else if er > es {
        (q, -q - s, s)
    } else {
        (q, r, -q - r)
    }
}

} // verus!
