//! Exact conversion between hexes and positions on the hex lattice.
//!
//! A [`PixelPoint`] measures `x` in units of `size * sqrt(3) / 2` and `y` in
//! units of `size / 2`, where `size` is the hex size, each divided by
//! `scale`. In these units every hex centre has integer coordinates, so the
//! conversion in both directions is exact; the irrational factor is applied
//! only when a point is drawn on screen.
use vstd::prelude::*;
use crate::coord::{magnitude, HexCoordinate, COORD_BOUND};
use crate::rounding::{
    cube_round,
    cube_round_spec,
    lemma_cube_round_exact,
    lemma_cube_round_near,
    ROUND_NUMERATOR_LIMIT,
};

verus! {

/// Largest subdivision of a lattice unit that [`PixelPoint`] may carry.
pub const MAX_PIXEL_SCALE: i64 = 16777216;

/// A position on the plane in lattice units, each coordinate over `scale`.
#[derive(Clone, Copy, Debug, PartialEq, Eq, Hash, Structural)]
pub struct PixelPoint {
    pub x: i64,
    pub y: i64,
    pub scale: i64,
}

/// Numerators, over `6 * scale`, of the fractional cube coordinates of a point.
pub open spec fn pixel_cube_numerators(x: int, y: int) -> (int, int, int) {
    (3 * x - y, 2 * y, -3 * x - y)
}

/// The hex whose cell contains the point `(x / scale, y / scale)`.
pub open spec fn pixel_hex(x: int, y: int, scale: int) -> (int, int) {
    let (nq, nr, ns) = pixel_cube_numerators(x, y);
    let (q, r, _s) = cube_round_spec(nq, nr, ns, 6 * scale);
    (q, r)
}

impl PixelPoint {
    /// The point lies over a hex that `HexCoordinate` can hold.
    pub open spec fn in_range(self) -> bool {
        &&& 1 <= self.scale <= MAX_PIXEL_SCALE
        &&& magnitude(3 * self.x - self.y) <= 6 * COORD_BOUND * self.scale
        &&& magnitude(2 * self.y) <= 6 * COORD_BOUND * self.scale
    }

    /// Whether the point lies over a hex that `HexCoordinate` can hold.
    pub fn is_in_range(&self) -> (b: bool)
        ensures
            b == self.in_range(),
    {
        if self.scale < 1 || self.scale > MAX_PIXEL_SCALE {
            return false;
        }
        assert(6 * COORD_BOUND == 196596);
        let limit: i128 = 196596 * (self.scale as i128);
        let x = self.x as i128;
        let y = self.y as i128;
        let a = 3 * x - y;
        let b = 2 * y;
        -limit <= a && a <= limit && -limit <= b && b <= limit
    }
}

impl HexCoordinate {
    /// Lattice position of the centre of this hex.
    pub open spec fn pixel_spec(self) -> (int, int) {
        (2 * self.q + self.r, 3 * self.r)
    }

    /// Centre of this hex, exactly, with `scale == 1`.
    pub fn to_pixel(&self) -> (p: PixelPoint)
        ensures
            (p.x as int, p.y as int) == self.pixel_spec(),
            p.scale == 1,
    {
        PixelPoint { x: 2 * (self.q as i64) + self.r as i64, y: 3 * (self.r as i64), scale: 1 }
    }

    /// The hex containing a point, found by cube rounding; the exact left
    /// inverse of [`HexCoordinate::to_pixel`].
    pub fn from_pixel(p: PixelPoint) -> (h: HexCoordinate)
        requires
            p.in_range(),
        ensures
            h.key() == pixel_hex(p.x as int, p.y as int, p.scale as int),
    {
        proof {
            assert(6 * COORD_BOUND * p.scale == 196596 * p.scale);
            assert(-4000000000000 <= p.y <= 4000000000000);
            assert(-4000000000000 <= p.x <= 4000000000000);
        }
        let d: i64 = 6 * p.scale;
        let nq: i64 = 3 * p.x - p.y;
        let nr: i64 = 2 * p.y;
        let ns: i64 = -nq - nr;
        proof {
            assert(6 * COORD_BOUND * p.scale <= ROUND_NUMERATOR_LIMIT / 2) by (nonlinear_arith)
                requires
                    1 <= p.scale <= MAX_PIXEL_SCALE,
            ;
            lemma_cube_round_near(nq as int, nr as int, ns as int, d as int);
        }
        let (q, r, _s) = cube_round(nq, nr, ns, d);
        proof {
            let bound = COORD_BOUND as int + 1;
            assert(-bound <= q <= bound) by (nonlinear_arith)
                requires
                    d >= 1,
                    magnitude(q * d - nq) <= d,
                    magnitude(nq as int) <= COORD_BOUND * d,
                    bound == COORD_BOUND + 1,
            ;
            assert(-bound <= r <= bound) by (nonlinear_arith)
                requires
                    d >= 1,
                    magnitude(r * d - nr) <= d,
                    magnitude(nr as int) <= COORD_BOUND * d,
                    bound == COORD_BOUND + 1,
            ;
        }
        HexCoordinate { q: q as i16, r: r as i16 }
    }
}

/// The lattice position of a hex centre converts back to that hex.
pub proof fn lemma_pixel_round_trip(h: HexCoordinate)
    requires
        h.in_bounds(),
    ensures
        pixel_hex(h.pixel_spec().0, h.pixel_spec().1, 1) == h.key(),
{
    let (x, y) = h.pixel_spec();
    let q = h.q as int;
    let r = h.r as int;
    assert(3 * x - y == q * 6);
    assert(2 * y == r * 6);
    assert(-3 * x - y == (-q - r) * 6);
    lemma_cube_round_exact(q, r, 6);
}

} // verus!
