//! Axial hex coordinates, the six unit directions, distance and neighbours.
use vstd::prelude::*;

verus! {

/// Largest coordinate magnitude for which the line and pixel operations are
/// guaranteed to produce representable results.
pub const COORD_BOUND: i16 = 32766;

/// Absolute value over mathematical integers.
pub open spec fn magnitude(x: int) -> int {
    if x < 0 {
        -x
    } else {
        x
    }
}

/// Cube distance between `(q1, r1)` and `(q2, r2)`.
pub open spec fn hex_distance(q1: int, r1: int, q2: int, r2: int) -> int {
    (magnitude(q1 - q2) + magnitude(r1 - r2) + magnitude((q1 - q2) + (r1 - r2))) / 2
}

/// Unit step in `q` of direction `d` (NE, E, SE, SW, W, NW for `d` in `0..6`).
pub open spec fn dir_dq(d: int) -> int {
    if d == 0 {
        1
    } else if d == 1 {
        1
    } else if d == 2 {
        0
    } else if d == 3 {
        -1
    } else if d == 4 {
        -1
    } else {
        0
    }
}

/// Unit step in `r` of direction `d` (NE, E, SE, SW, W, NW for `d` in `0..6`).
pub open spec fn dir_dr(d: int) -> int {
    if d == 0 {
        -1
    } else if d == 1 {
        0
    } else if d == 2 {
        1
    } else if d == 3 {
        1
    } else if d == 4 {
        0
    } else {
        -1
    }
}

/// A hex cell address in axial form; the third cube axis is `s = -q - r`.
#[derive(Clone, Copy, Debug, PartialEq, Eq, Hash, Structural)]
pub struct HexCoordinate {
    pub q: i16,
    pub r: i16,
}

/// One of the six directions to an adjacent hex.
#[derive(Clone, Copy, Debug, PartialEq, Eq, Hash, Structural)]
pub enum HexDirection {
    NE,
    E,
    SE,
    SW,
    W,
    NW,
}

impl HexDirection {
    /// Position of the direction in the fixed order NE, E, SE, SW, W, NW.
    pub open spec fn index(self) -> int {
        match self {
            HexDirection::NE => 0,
            HexDirection::E => 1,
            HexDirection::SE => 2,
            HexDirection::SW => 3,
            HexDirection::W => 4,
            HexDirection::NW => 5,
        }
    }

    /// The unit offset of this direction.
    pub fn to_hex(&self) -> (h: HexCoordinate)
        ensures
            h.q == dir_dq(self.index()),
            h.r == dir_dr(self.index()),
    {
        match self {
            HexDirection::NE => HexCoordinate { q: 1, r: -1 },
            HexDirection::E => HexCoordinate { q: 1, r: 0 },
            HexDirection::SE => HexCoordinate { q: 0, r: 1 },
            HexDirection::SW => HexCoordinate { q: -1, r: 1 },
            HexDirection::W => HexCoordinate { q: -1, r: 0 },
            HexDirection::NW => HexCoordinate { q: 0, r: -1 },
        }
    }
}

impl HexCoordinate {
    /// The derived third cube coordinate.
    pub open spec fn s_spec(self) -> int {
        -(self.q as int) - (self.r as int)
    }

    /// Both axial coordinates lie within `COORD_BOUND`.
    pub open spec fn in_bounds(self) -> bool {
        magnitude(self.q as int) <= COORD_BOUND as int && magnitude(self.r as int)
            <= COORD_BOUND as int
    }

    /// The coordinate pair as mathematical integers.
    pub open spec fn key(self) -> (int, int) {
        (self.q as int, self.r as int)
    }

    /// The neighbour of this hex in direction `d`.
    pub open spec fn step(self, d: int) -> (int, int) {
        (self.q + dir_dq(d), self.r + dir_dr(d))
    }

    /// Whether both axial coordinates lie within `COORD_BOUND`.
    pub fn is_in_bounds(&self) -> (b: bool)
        ensures
            b == self.in_bounds(),
    {
        -COORD_BOUND <= self.q && self.q <= COORD_BOUND && -COORD_BOUND <= self.r && self.r
            <= COORD_BOUND
    }

    pub fn from_qr(q: i16, r: i16) -> (h: HexCoordinate)
        ensures
            h.q == q,
            h.r == r,
    {
        HexCoordinate { q, r }
    }

    /// The third cube coordinate; `q + r + s == 0` always holds.
    pub fn s(&self) -> (s: i32)
        ensures
            s == self.s_spec(),
            self.q + self.r + s == 0,
    {
        -(self.q as i32) - (self.r as i32)
    }

    /// Coordinate-wise sum.
    pub fn plus(&self, other: HexCoordinate) -> (h: HexCoordinate)
        requires
            i16::MIN <= self.q + other.q <= i16::MAX,
            i16::MIN <= self.r + other.r <= i16::MAX,
        ensures
            h.q == self.q + other.q,
            h.r == self.r + other.r,
    {
        HexCoordinate { q: self.q + other.q, r: self.r + other.r }
    }

    /// Coordinate-wise difference.
    pub fn minus(&self, other: HexCoordinate) -> (h: HexCoordinate)
        requires
            i16::MIN <= self.q - other.q <= i16::MAX,
            i16::MIN <= self.r - other.r <= i16::MAX,
        ensures
            h.q == self.q - other.q,
            h.r == self.r - other.r,
    {
        HexCoordinate { q: self.q - other.q, r: self.r - other.r }
    }

    /// Coordinate-wise multiplication by a scalar.
    pub fn scaled(&self, k: i16) -> (h: HexCoordinate)
        requires
            i16::MIN <= self.q * k <= i16::MAX,
            i16::MIN <= self.r * k <= i16::MAX,
        ensures
            h.q == self.q * k,
            h.r == self.r * k,
    {
        HexCoordinate { q: self.q * k, r: self.r * k }
    }

    /// Cube distance to `other`; symmetric, and zero exactly on equal hexes.
    pub fn distance(&self, other: HexCoordinate) -> (d: u32)
        ensures
            d == hex_distance(self.q as int, self.r as int, other.q as int, other.r as int),
    {
        let dq: i32 = self.q as i32 - other.q as i32;
        let dr: i32 = self.r as i32 - other.r as i32;
        let ds: i32 = dq + dr;
        let aq: u32 = if dq < 0 {
            (-dq) as u32
        } else {
            dq as u32
        };
        let ar: u32 = if dr < 0 {
            (-dr) as u32
        } else {
            dr as u32
        };
        let as_: u32 = if ds < 0 {
            (-ds) as u32
        } else {
            ds as u32
        };
        (aq + ar + as_) / 2
    }

    /// The six adjacent hexes, in the order NE, E, SE, SW, W, NW.
    pub fn neighbors(&self) -> (n: [HexCoordinate; 6])
        requires
            i16::MIN < self.q < i16::MAX,
            i16::MIN < self.r < i16::MAX,
        ensures
            forall|d: int|
                0 <= d < 6 ==> #[trigger] n@[d].key() == self.step(d),
            forall|d: int| 0 <= d < 6 ==> #[trigger] n@[d] != *self,
    {
        let n = [
            HexCoordinate { q: self.q + 1, r: self.r - 1 },
            HexCoordinate { q: self.q + 1, r: self.r },
            HexCoordinate { q: self.q, r: self.r + 1 },
            HexCoordinate { q: self.q - 1, r: self.r + 1 },
            HexCoordinate { q: self.q - 1, r: self.r },
            HexCoordinate { q: self.q, r: self.r - 1 },
        ];
        assert(forall|d: int|
            0 <= d < 6 ==> #[trigger] n@[d].key() == self.step(d));
        n
    }
}

} // verus!
