//! The board: one control vector per hex within a fixed cube radius.
//!
//! Cells are stored in a square array indexed by `(q + R, r + R)`; the
//! corners of the square outside the hexagon are never read. Lookups are
//! constant time. The board is described by its view, a map from the
//! coordinates of the board's hexes to their control vectors.
use vstd::prelude::*;
use crate::control::{
    clamp,
    transfer,
    transfer_spec,
    ControlVector,
    Faction,
    MAX_CONTROL_VALUE,
};
use crate::coord::{dir_dq, dir_dr, magnitude, HexCoordinate, HexDirection};

verus! {

/// Largest board radius.
pub const MAX_GRID_RADIUS: u16 = 1024;

/// The control of each hex of a board, keyed by its coordinates.
pub type Board = Map<(int, int), ControlVector>;

/// `(q, r)` is within cube distance `radius` of the origin.
pub open spec fn on_board(radius: int, q: int, r: int) -> bool {
    magnitude(q) <= radius && magnitude(r) <= radius && magnitude(q + r) <= radius
}

/// The neighbour of key `k` in direction `d`.
pub open spec fn key_step(k: (int, int), d: int) -> (int, int) {
    (k.0 + dir_dq(d), k.1 + dir_dr(d))
}

/// How many of the first `d` directions from `k` lead to a hex of the board.
pub open spec fn count_dirs(m: Board, k: (int, int), d: nat) -> int
    decreases d,
{
    if d == 0 {
        0
    } else {
        count_dirs(m, k, (d - 1) as nat) + if m.dom().contains(key_step(k, d - 1)) {
            1int
        } else {
            0int
        }
    }
}

/// Number of neighbours of `k` on the board.
pub open spec fn neighbor_count(m: Board, k: (int, int)) -> int {
    count_dirs(m, k, 6)
}

/// Channel `f` that `k` gives away to its first `d` neighbours in one
/// diffusion step.
pub open spec fn outflow(m: Board, k: (int, int), f: Faction, d: nat) -> int
    decreases d,
{
    if d == 0 {
        0
    } else {
        let nb = key_step(k, d - 1);
        outflow(m, k, f, (d - 1) as nat) + if m.dom().contains(nb) {
            transfer_spec(m[k].channel(f), m[nb].channel(f), neighbor_count(m, k))
        } else {
            0
        }
    }
}

/// Channel `f` that `k` receives from its first `d` neighbours in one
/// diffusion step.
pub open spec fn inflow(m: Board, k: (int, int), f: Faction, d: nat) -> int
    decreases d,
{
    if d == 0 {
        0
    } else {
        let nb = key_step(k, d - 1);
        inflow(m, k, f, (d - 1) as nat) + if m.dom().contains(nb) {
            transfer_spec(m[nb].channel(f), m[k].channel(f), neighbor_count(m, nb))
        } else {
            0
        }
    }
}

/// Channel `f` of `k` after one diffusion step, every transfer computed from
/// the board as it was before the step.
pub open spec fn diffused_channel(m: Board, k: (int, int), f: Faction) -> int {
    clamp(m[k].channel(f) - outflow(m, k, f, 6) + inflow(m, k, f, 6))
}

/// The control vector of `k` after one diffusion step.
pub open spec fn diffused_cell(m: Board, k: (int, int)) -> ControlVector {
    ControlVector {
        a: diffused_channel(m, k, Faction::A) as u32,
        b: diffused_channel(m, k, Faction::B) as u32,
        neutral: diffused_channel(m, k, Faction::Neutral) as u32,
    }
}

/// The board after one diffusion step.
pub open spec fn diffuse_spec(m: Board) -> Board {
    Map::new(|k: (int, int)| m.dom().contains(k), |k: (int, int)| diffused_cell(m, k))
}

/// The board after one decay step.
pub open spec fn decay_spec(m: Board) -> Board {
    m.map_values(|v: ControlVector| v.decayed_spec())
}

/// The board after `delta` is added to the hex `k`, if it is on the board.
pub open spec fn inject_spec(m: Board, k: (int, int), delta: ControlVector) -> Board {
    if m.dom().contains(k) {
        m.insert(k, m[k].plus_spec(delta))
    } else {
        m
    }
}

/// The board after `delta` is added to each hex of `path` in turn.
pub open spec fn inject_path(m: Board, path: Seq<HexCoordinate>, delta: ControlVector) -> Board
    decreases path.len(),
{
    if path.len() == 0 {
        m
    } else {
        inject_spec(inject_path(m, path.drop_last(), delta), path.last().key(), delta)
    }
}

/// The board after `delta` is added to each neighbour of `k` among the first
/// `d` directions.
pub open spec fn inject_around_spec(m: Board, k: (int, int), delta: ControlVector, d: nat) -> Board
    decreases d,
{
    if d == 0 {
        m
    } else {
        inject_spec(inject_around_spec(m, k, delta, (d - 1) as nat), key_step(k, d - 1), delta)
    }
}

/// The board after `v` is added to the hexes `k + i * dir` for `i` from
/// `i` to `reach`, stopping at the first one off the board.
pub open spec fn beam_spec(
    m: Board,
    k: (int, int),
    dir: (int, int),
    v: ControlVector,
    i: int,
    reach: int,
) -> Board
    decreases reach + 1 - i,
{
    let p = (k.0 + i * dir.0, k.1 + i * dir.1);
    if i <= reach && m.dom().contains(p) {
        beam_spec(inject_spec(m, p, v), k, dir, v, i + 1, reach)
    } else {
        m
    }
}

/// Position in the cell array of the hex `(q, r)`.
pub open spec fn slot(radius: int, q: int, r: int) -> int {
    (q + radius) * (2 * radius + 1) + (r + radius)
}

/// Slot of the hex of a cell.
spec fn cell_slot(radius: int, c: HexCell) -> int {
    slot(radius, c.coord.q as int, c.coord.r as int)
}

/// One hex of the board with its control.
#[derive(Clone, Copy, Debug, PartialEq, Eq, Structural)]
pub struct HexCell {
    pub coord: HexCoordinate,
    pub control: ControlVector,
}

/// The board.
pub struct HexGrid {
    radius: u16,
    side: usize,
    cells: Vec<ControlVector>,
    occupants: Vec<Option<u64>>,
}

fn dir_offset(d: usize) -> (o: (i32, i32))
    requires
        d < 6,
    ensures
        o.0 == dir_dq(d as int),
        o.1 == dir_dr(d as int),
{
    if d == 0 {
        (1, -1)
    } else if d == 1 {
        (1, 0)
    } else if d == 2 {
        (0, 1)
    } else if d == 3 {
        (-1, 1)
    } else if d == 4 {
        (-1, 0)
    } else {
        (0, -1)
    }
}

proof fn lemma_slot_bounds(radius: int, q: int, r: int)
    requires
        0 <= radius,
        on_board(radius, q, r),
    ensures
        0 <= slot(radius, q, r) < (2 * radius + 1) * (2 * radius + 1),
        slot(radius, q, r) / (2 * radius + 1) == q + radius,
        slot(radius, q, r) % (2 * radius + 1) == r + radius,
{
    let side = 2 * radius + 1;
    let a = q + radius;
    let b = r + radius;
    assert(0 <= a * side + b < side * side) by (nonlinear_arith)
        requires
            0 <= a < side,
            0 <= b < side,
    ;
    vstd::arithmetic::div_mod::lemma_fundamental_div_mod_converse(a * side + b, side, a, b);
}

/// Distinct hexes of the board sit in distinct slots.
proof fn lemma_slot_injective(radius: int, k1: (int, int), k2: (int, int))
    requires
        0 <= radius,
        on_board(radius, k1.0, k1.1),
        on_board(radius, k2.0, k2.1),
        k1 != k2,
    ensures
        slot(radius, k1.0, k1.1) != slot(radius, k2.0, k2.1),
{
    lemma_slot_bounds(radius, k1.0, k1.1);
    lemma_slot_bounds(radius, k2.0, k2.1);
}

impl View for HexGrid {
    type V = Board;

    closed spec fn view(&self) -> Board {
        Map::new(
            |k: (int, int)| on_board(self.radius as int, k.0, k.1),
            |k: (int, int)| self.cells@[slot(self.radius as int, k.0, k.1)],
        )
    }
}

impl HexGrid {
    /// The radius the board was built with.
    pub closed spec fn radius_spec(&self) -> int {
        self.radius as int
    }

    /// The structure standing on each hex of the board, if any.
    pub closed spec fn structures(&self) -> Map<(int, int), Option<u64>> {
        Map::new(
            |k: (int, int)| on_board(self.radius as int, k.0, k.1),
            |k: (int, int)| self.occupants@[slot(self.radius as int, k.0, k.1)],
        )
    }

    /// The cell array matches the radius and every channel is in range.
    pub closed spec fn wf(&self) -> bool {
        &&& self.radius <= MAX_GRID_RADIUS
        &&& self.side == 2 * self.radius + 1
        &&& self.cells@.len() == self.side * self.side
        &&& self.occupants@.len() == self.cells@.len()
        &&& forall|i: int| 0 <= i < self.cells@.len() ==> (#[trigger] self.cells@[i]).wf()
    }

    /// The view holds exactly the hexes within the radius, each well formed.
    pub proof fn lemma_view(&self)
        requires
            self.wf(),
        ensures
            0 <= self.radius_spec() <= MAX_GRID_RADIUS,
            forall|k: (int, int)|
                #[trigger] self@.dom().contains(k) <==> on_board(self.radius_spec(), k.0, k.1),
            forall|k: (int, int)| #[trigger] self@.dom().contains(k) ==> self@[k].wf(),
    {
        assert forall|k: (int, int)| #[trigger] self@.dom().contains(k) implies self@[k].wf() by {
            lemma_slot_bounds(self.radius as int, k.0, k.1);
        }
    }

    /// A board of the given radius with no control anywhere.
    pub fn new(radius: u16) -> (g: HexGrid)
        requires
            radius <= MAX_GRID_RADIUS,
        ensures
            g.wf(),
            g.radius_spec() == radius,
            forall|k: (int, int)| #[trigger] g@.dom().contains(k) <==> on_board(radius as int, k.0, k.1),
            forall|k: (int, int)| #[trigger] g@.dom().contains(k) ==> g@[k] == ControlVector::zero_spec(),
            g.structures().dom() == g@.dom(),
            forall|k: (int, int)| #[trigger] g@.dom().contains(k) ==> g.structures()[k] == None::<u64>,
    {
        let side: usize = 2 * (radius as usize) + 1;
        assert(side * side <= 2049 * 2049) by (nonlinear_arith)
            requires
                side <= 2049,
        ;
        let total: usize = side * side;
        let mut cells: Vec<ControlVector> = Vec::new();
        let mut occupants: Vec<Option<u64>> = Vec::new();
        let mut i: usize = 0;
        while i < total
            invariant
                cells@.len() == i,
                occupants@.len() == i,
                i <= total,
                forall|j: int| 0 <= j < i ==> #[trigger] cells@[j] == ControlVector::zero_spec(),
                forall|j: int| 0 <= j < i ==> #[trigger] occupants@[j] == None::<u64>,
            decreases total - i,
        {
            cells.push(ControlVector::zero());
            occupants.push(None);
            i = i + 1;
        }
        let g = HexGrid { radius, side, cells, occupants };
        proof {
            assert forall|k: (int, int)| #[trigger] g@.dom().contains(k) implies g@[k]
                == ControlVector::zero_spec() && g.structures()[k] == None::<u64> by {
                lemma_slot_bounds(radius as int, k.0, k.1);
            }
        }
        g
    }

    /// The radius the board was built with.
    pub fn radius(&self) -> (r: u16)
        ensures
            r == self.radius_spec(),
    {
        self.radius
    }

    fn on_board_exec(&self, q: i32, r: i32) -> (b: bool)
        requires
            -200000 <= q <= 200000,
            -200000 <= r <= 200000,
        ensures
            b == on_board(self.radius as int, q as int, r as int),
    {
        let rad = self.radius as i32;
        let s = q + r;
        -rad <= q && q <= rad && -rad <= r && r <= rad && -rad <= s && s <= rad
    }

    fn slot_of(&self, q: i32, r: i32) -> (i: usize)
        requires
            self.wf(),
            on_board(self.radius as int, q as int, r as int),
        ensures
            i == slot(self.radius as int, q as int, r as int),
            i < self.cells@.len(),
    {
        proof {
            lemma_slot_bounds(self.radius as int, q as int, r as int);
        }
        let rad = self.radius as i32;
        let a = (q + rad) as usize;
        let b = (r + rad) as usize;
        let _len = self.cells.len();
        assert(a * self.side + b == slot(self.radius as int, q as int, r as int));
        assert(a * self.side + b < self.cells@.len());
        assert(a * self.side <= a * self.side + b);
        a * self.side + b
    }

    /// Whether the hex `h` is on the board.
    pub fn contains(&self, h: HexCoordinate) -> (b: bool)
        requires
            self.wf(),
        ensures
            b == self@.dom().contains(h.key()),
    {
        self.on_board_exec(h.q as i32, h.r as i32)
    }

    /// The control of the hex `h`, if it is on the board.
    pub fn control_at(&self, h: HexCoordinate) -> (c: Option<ControlVector>)
        requires
            self.wf(),
        ensures
            c == if self@.dom().contains(h.key()) {
                Some(self@[h.key()])
            } else {
                None::<ControlVector>
            },
    {
        if self.on_board_exec(h.q as i32, h.r as i32) {
            let i = self.slot_of(h.q as i32, h.r as i32);
            Some(self.cells[i])
        } else {
            None
        }
    }

    /// The hex `h` with its control, if it is on the board.
    pub fn lookup(&self, h: HexCoordinate) -> (c: Option<HexCell>)
        requires
            self.wf(),
        ensures
            c == if self@.dom().contains(h.key()) {
                Some(HexCell { coord: h, control: self@[h.key()] })
            } else {
                None::<HexCell>
            },
    {
        match self.control_at(h) {
            Some(control) => Some(HexCell { coord: h, control }),
            None => None,
        }
    }

    /// The dominant faction of the hex `h`, if it is on the board.
    pub fn faction_at(&self, h: HexCoordinate) -> (f: Option<Faction>)
        requires
            self.wf(),
        ensures
            f == if self@.dom().contains(h.key()) {
                Some(self@[h.key()].max_status_spec())
            } else {
                None::<Faction>
            },
    {
        match self.control_at(h) {
            Some(control) => Some(control.max_status()),
            None => None,
        }
    }

    /// Adds `delta` to the hex `h`, capped; does nothing off the board.
    pub fn inject(&mut self, h: HexCoordinate, delta: ControlVector)
        requires
            old(self).wf(),
        ensures
            final(self).wf(),
            final(self).radius_spec() == old(self).radius_spec(),
            final(self).structures() == old(self).structures(),
            final(self)@ == inject_spec(old(self)@, h.key(), delta),
    {
        if self.on_board_exec(h.q as i32, h.r as i32) {
            let i = self.slot_of(h.q as i32, h.r as i32);
            let next = self.cells[i].plus(delta);
            self.cells.set(i, next);
            proof {
                let rad = self.radius as int;
                assert forall|k: (int, int)| #[trigger] on_board(rad, k.0, k.1) && k != h.key()
                    implies self.cells@[slot(rad, k.0, k.1)] == old(self).cells@[slot(
                    rad,
                    k.0,
                    k.1,
                )] by {
                    lemma_slot_bounds(rad, k.0, k.1);
                    lemma_slot_injective(rad, k, h.key());
                }
                assert(self@ =~= old(self)@.insert(h.key(), old(self)@[h.key()].plus_spec(delta)));
            }
        } else {
            proof {
                assert(self@ =~= old(self)@);
            }
        }
    }

    /// One decay step on every hex of the board.
    pub fn decay(&mut self)
        requires
            old(self).wf(),
        ensures
            final(self).wf(),
            final(self).radius_spec() == old(self).radius_spec(),
            final(self).structures() == old(self).structures(),
            final(self)@ == decay_spec(old(self)@),
    {
        let total = self.cells.len();
        let mut i: usize = 0;
        while i < total
            invariant
                self.radius == old(self).radius,
                self.side == old(self).side,
                self.occupants == old(self).occupants,
                self.cells@.len() == total,
                total == old(self).cells@.len(),
                old(self).wf(),
                i <= total,
                forall|j: int| 0 <= j < i ==> #[trigger] self.cells@[j] == old(self).cells@[j].decayed_spec(),
                forall|j: int| i <= j < total ==> #[trigger] self.cells@[j] == old(self).cells@[j],
            decreases total - i,
        {
            let next = self.cells[i].decayed();
            self.cells.set(i, next);
            i = i + 1;
        }
        proof {
            assert forall|j: int| 0 <= j < self.cells@.len() implies (#[trigger] self.cells@[j]).wf() by {
                assert(old(self).cells@[j].wf());
            }
            assert forall|k: (int, int)| #[trigger] self@.dom().contains(k) implies self@[k]
                == old(self)@[k].decayed_spec() by {
                lemma_slot_bounds(self.radius as int, k.0, k.1);
            }
            assert(self@ =~= decay_spec(old(self)@));
        }
    }

    fn neighbor_count_exec(&self, q: i32, r: i32) -> (n: u32)
        requires
            self.wf(),
            -2000 <= q <= 2000,
            -2000 <= r <= 2000,
        ensures
            n == neighbor_count(self@, (q as int, r as int)),
            n <= 6,
    {
        let mut n: u32 = 0;
        let mut d: usize = 0;
        while d < 6
            invariant
                self.wf(),
                -2000 <= q <= 2000,
                -2000 <= r <= 2000,
                d <= 6,
                n <= d,
                n == count_dirs(self@, (q as int, r as int), d as nat),
            decreases 6 - d,
        {
            let (dq, dr) = dir_offset(d);
            if self.on_board_exec(q + dq, r + dr) {
                n = n + 1;
            }
            d = d + 1;
        }
        n
    }

    fn diffused_channel_exec(&self, q: i32, r: i32, f: Faction) -> (c: u32)
        requires
            self.wf(),
            on_board(self.radius as int, q as int, r as int),
        ensures
            c == diffused_channel(self@, (q as int, r as int), f),
    {
        proof {
            self.lemma_view();
        }
        let key: Ghost<(int, int)> = Ghost((q as int, r as int));
        let here = self.slot_of(q, r);
        let src = self.cells[here].get(f);
        let n_self = self.neighbor_count_exec(q, r);
        let mut out: u64 = 0;
        let mut inn: u64 = 0;
        let mut d: usize = 0;
        while d < 6
            invariant
                self.wf(),
                key@ == (q as int, r as int),
                on_board(self.radius as int, q as int, r as int),
                src == self@[key@].channel(f),
                src <= MAX_CONTROL_VALUE,
                n_self == neighbor_count(self@, key@),
                n_self <= 6,
                d <= 6,
                out == outflow(self@, key@, f, d as nat),
                inn == inflow(self@, key@, f, d as nat),
                out <= d * MAX_CONTROL_VALUE,
                inn <= d * MAX_CONTROL_VALUE,
            decreases 6 - d,
        {
            let (dq, dr) = dir_offset(d);
            let nq = q + dq;
            let nr = r + dr;
            if self.on_board_exec(nq, nr) {
                let there = self.slot_of(nq, nr);
                let other = self.cells[there].get(f);
                assert(other == self@[key_step(key@, d as int)].channel(f));
                let given = transfer(src, other, n_self);
                let n_other = self.neighbor_count_exec(nq, nr);
                let taken = transfer(other, src, n_other);
                out = out + given as u64;
                inn = inn + taken as u64;
            }
            d = d + 1;
        }
        let v: i64 = src as i64 - out as i64 + inn as i64;
        if v < 0 {
            0
        } else if v > MAX_CONTROL_VALUE as i64 {
            MAX_CONTROL_VALUE
        } else {
            v as u32
        }
    }

    /// One diffusion step: every hex passes a share of each channel to each
    /// neighbour holding less of it, all shares computed from the board as
    /// it was before the step.
    pub fn diffuse(&mut self)
        requires
            old(self).wf(),
        ensures
            final(self).wf(),
            final(self).radius_spec() == old(self).radius_spec(),
            final(self).structures() == old(self).structures(),
            final(self)@ == diffuse_spec(old(self)@),
    {
        let total = self.cells.len();
        let side = self.side;
        let rad = self.radius as usize;
        let mut next: Vec<ControlVector> = Vec::new();
        let mut i: usize = 0;
        while i < total
            invariant
                self.wf(),
                total == self.cells@.len(),
                side == self.side,
                rad == self.radius,
                i <= total,
                next@.len() == i,
                forall|j: int| 0 <= j < i ==> (#[trigger] next@[j]).wf(),
                forall|j: int|
                    0 <= j < i && on_board(rad as int, j / side as int - rad, j % side as int - rad)
                        ==> #[trigger] next@[j] == diffused_cell(
                        self@,
                        (j / side as int - rad, j % side as int - rad),
                    ),
            decreases total - i,
        {
            proof {
                assert(i / side < side) by (nonlinear_arith)
                    requires
                        i < side * side,
                        side > 0,
                ;
            }
            let q = (i / side) as i32 - rad as i32;
            let r = (i % side) as i32 - rad as i32;
            if self.on_board_exec(q, r) {
                let a = self.diffused_channel_exec(q, r, Faction::A);
                let b = self.diffused_channel_exec(q, r, Faction::B);
                let neutral = self.diffused_channel_exec(q, r, Faction::Neutral);
                next.push(ControlVector { a, b, neutral });
            } else {
                next.push(self.cells[i]);
            }
            i = i + 1;
        }
        let ghost before = self@;
        self.cells = next;
        proof {
            assert forall|k: (int, int)| #[trigger] self@.dom().contains(k) implies self@[k]
                == diffused_cell(before, k) by {
                lemma_slot_bounds(rad as int, k.0, k.1);
            }
            assert(self@ =~= diffuse_spec(before));
        }
    }

    /// One simulation tick: decay, then diffusion.
    pub fn tick(&mut self)
        requires
            old(self).wf(),
        ensures
            final(self).wf(),
            final(self).radius_spec() == old(self).radius_spec(),
            final(self).structures() == old(self).structures(),
            final(self)@ == diffuse_spec(decay_spec(old(self)@)),
    {
        self.decay();
        self.diffuse();
    }

    /// Adds `delta` to each hex of `path` in turn, skipping those off the board.
    pub fn inject_path(&mut self, path: &Vec<HexCoordinate>, delta: ControlVector)
        requires
            old(self).wf(),
        ensures
            final(self).wf(),
            final(self).radius_spec() == old(self).radius_spec(),
            final(self).structures() == old(self).structures(),
            final(self)@ == inject_path(old(self)@, path@, delta),
    {
        let mut i: usize = 0;
        while i < path.len()
            invariant
                self.wf(),
                self.radius_spec() == old(self).radius_spec(),
                self.structures() == old(self).structures(),
                i <= path@.len(),
                self@ == inject_path(old(self)@, path@.subrange(0, i as int), delta),
            decreases path@.len() - i,
        {
            self.inject(path[i], delta);
            proof {
                assert(path@.subrange(0, i + 1).drop_last() =~= path@.subrange(0, i as int));
            }
            i = i + 1;
        }
        proof {
            assert(path@.subrange(0, path@.len() as int) =~= path@);
        }
    }

    /// Adds `delta` to each neighbour of `h` that is on the board.
    pub fn inject_around(&mut self, h: HexCoordinate, delta: ControlVector)
        requires
            old(self).wf(),
        ensures
            final(self).wf(),
            final(self).radius_spec() == old(self).radius_spec(),
            final(self).structures() == old(self).structures(),
            final(self)@ == inject_around_spec(old(self)@, h.key(), delta, 6),
    {
        let mut d: usize = 0;
        while d < 6
            invariant
                self.wf(),
                self.radius_spec() == old(self).radius_spec(),
                self.structures() == old(self).structures(),
                d <= 6,
                self@ == inject_around_spec(old(self)@, h.key(), delta, d as nat),
            decreases 6 - d,
        {
            let (dq, dr) = dir_offset(d);
            let q = h.q as i32 + dq;
            let r = h.r as i32 + dr;
            if self.on_board_exec(q, r) {
                let p = HexCoordinate { q: q as i16, r: r as i16 };
                self.inject(p, delta);
            } else {
                proof {
                    assert(!self@.dom().contains(key_step(h.key(), d as int)));
                }
            }
            d = d + 1;
        }
    }

    /// Adds the control that `origin` holds now to the next `reach` hexes
    /// in direction `dir`, stopping at the edge of the board; does nothing
    /// when `origin` is off the board.
    pub fn beam(&mut self, origin: HexCoordinate, dir: HexDirection, reach: u16)
        requires
            old(self).wf(),
        ensures
            final(self).wf(),
            final(self).radius_spec() == old(self).radius_spec(),
            final(self).structures() == old(self).structures(),
            old(self)@.dom().contains(origin.key()) ==> final(self)@ == beam_spec(
                old(self)@,
                origin.key(),
                (dir_dq(dir.index()), dir_dr(dir.index())),
                old(self)@[origin.key()],
                1,
                reach as int,
            ),
            !old(self)@.dom().contains(origin.key()) ==> final(self)@ == old(self)@,
    {
        let source = match self.control_at(origin) {
            Some(v) => v,
            None => {
                return ;
            },
        };
        let step = dir.to_hex();
        let ghost k = origin.key();
        let ghost dv = (dir_dq(dir.index()), dir_dr(dir.index()));
        let mut i: u16 = 1;
        while i <= reach
            invariant
                self.wf(),
                self.radius_spec() == old(self).radius_spec(),
                self.structures() == old(self).structures(),
                1 <= i,
                i <= reach + 1,
                k == origin.key(),
                dv == (dir_dq(dir.index()), dir_dr(dir.index())),
                old(self)@.dom().contains(k),
                source == old(self)@[k],
                step.q == dv.0,
                step.r == dv.1,
                -1 <= dv.0 <= 1,
                -1 <= dv.1 <= 1,
                self@.dom() == old(self)@.dom(),
                beam_spec(self@, k, dv, source, i as int, reach as int) == beam_spec(
                    old(self)@,
                    k,
                    dv,
                    source,
                    1,
                    reach as int,
                ),
            decreases reach + 1 - i,
        {
            proof {
                assert(-70000 <= (i as int) * dv.0 <= 70000) by (nonlinear_arith)
                    requires
                        -1 <= dv.0 <= 1,
                        i <= 65536,
                ;
                assert(-70000 <= (i as int) * dv.1 <= 70000) by (nonlinear_arith)
                    requires
                        -1 <= dv.1 <= 1,
                        i <= 65536,
                ;
            }
            let q = origin.q as i32 + (i as i32) * (step.q as i32);
            let r = origin.r as i32 + (i as i32) * (step.r as i32);
            let ghost pk = (k.0 + (i as int) * dv.0, k.1 + (i as int) * dv.1);
            if !self.on_board_exec(q, r) {
                proof {
                    assert(pk == (q as int, r as int));
                    assert(beam_spec(self@, k, dv, source, i as int, reach as int) == self@);
                }
                return ;
            }
            let ghost before = self@;
            let p = HexCoordinate { q: q as i16, r: r as i16 };
            self.inject(p, source);
            proof {
                assert(pk == p.key());
                assert(beam_spec(before, k, dv, source, i as int, reach as int) == beam_spec(
                    self@,
                    k,
                    dv,
                    source,
                    i + 1,
                    reach as int,
                ));
                assert(self@.dom() =~= before.dom());
            }
            if i == reach {
                proof {
                    assert(beam_spec(self@, k, dv, source, i + 1, reach as int) == self@);
                }
                return ;
            }
            i = i + 1;
        }
        proof {
            assert(beam_spec(self@, k, dv, source, i as int, reach as int) == self@);
        }
    }

    /// The structure standing on the hex `h`, if `h` is on the board.
    pub fn structure_at(&self, h: HexCoordinate) -> (id: Option<u64>)
        requires
            self.wf(),
        ensures
            id == if self@.dom().contains(h.key()) {
                self.structures()[h.key()]
            } else {
                None::<u64>
            },
    {
        if self.on_board_exec(h.q as i32, h.r as i32) {
            let i = self.slot_of(h.q as i32, h.r as i32);
            self.occupants[i]
        } else {
            None
        }
    }

    /// Records the structure `id` on the hex `h` when `h` is on the board
    /// and free; tells whether it did.
    pub fn place_structure(&mut self, h: HexCoordinate, id: u64) -> (placed: bool)
        requires
            old(self).wf(),
        ensures
            final(self).wf(),
            final(self).radius_spec() == old(self).radius_spec(),
            final(self)@ == old(self)@,
            placed == (old(self)@.dom().contains(h.key()) && old(self).structures()[h.key()]
                == None::<u64>),
            final(self).structures() == if placed {
                old(self).structures().insert(h.key(), Some(id))
            } else {
                old(self).structures()
            },
    {
        if !self.on_board_exec(h.q as i32, h.r as i32) {
            return false;
        }
        let i = self.slot_of(h.q as i32, h.r as i32);
        if self.occupants[i].is_some() {
            return false;
        }
        self.occupants.set(i, Some(id));
        proof {
            let rad = self.radius as int;
            assert forall|k: (int, int)| #[trigger] on_board(rad, k.0, k.1) && k != h.key()
                implies self.occupants@[slot(rad, k.0, k.1)] == old(self).occupants@[slot(
                rad,
                k.0,
                k.1,
            )] by {
                lemma_slot_bounds(rad, k.0, k.1);
                lemma_slot_injective(rad, k, h.key());
            }
            assert(self.structures() =~= old(self).structures().insert(h.key(), Some(id)));
            assert(self@ =~= old(self)@);
        }
        true
    }

    /// Forgets the structure on the hex `h`, if any.
    pub fn clear_structure(&mut self, h: HexCoordinate)
        requires
            old(self).wf(),
        ensures
            final(self).wf(),
            final(self).radius_spec() == old(self).radius_spec(),
            final(self)@ == old(self)@,
            final(self).structures() == if old(self)@.dom().contains(h.key()) {
                old(self).structures().insert(h.key(), None)
            } else {
                old(self).structures()
            },
    {
        if self.on_board_exec(h.q as i32, h.r as i32) {
            let i = self.slot_of(h.q as i32, h.r as i32);
            self.occupants.set(i, None);
            proof {
                let rad = self.radius as int;
                assert forall|k: (int, int)| #[trigger] on_board(rad, k.0, k.1) && k != h.key()
                    implies self.occupants@[slot(rad, k.0, k.1)] == old(self).occupants@[slot(
                    rad,
                    k.0,
                    k.1,
                )] by {
                    lemma_slot_bounds(rad, k.0, k.1);
                    lemma_slot_injective(rad, k, h.key());
                }
                assert(self.structures() =~= old(self).structures().insert(h.key(), None));
                assert(self@ =~= old(self)@);
            }
        }
    }

    /// Every hex of the board with its control, each once, ordered by `q`
    /// and then by `r`.
    pub fn cells(&self) -> (out: Vec<HexCell>)
        requires
            self.wf(),
        ensures
            forall|j: int|
                0 <= j < out@.len() ==> self@.dom().contains(#[trigger] out@[j].coord.key())
                    && out@[j].control == self@[out@[j].coord.key()],
            forall|j1: int, j2: int|
                0 <= j1 < j2 < out@.len() ==> #[trigger] out@[j1].coord != #[trigger] out@[j2].coord,
            forall|k: (int, int)|
                #[trigger] self@.dom().contains(k) ==> exists|j: int|
                    0 <= j < out@.len() && #[trigger] out@[j].coord.key() == k,
    {
        let total = self.cells.len();
        let side = self.side;
        let rad = self.radius as usize;
        let ghost r = rad as int;
        let mut out: Vec<HexCell> = Vec::new();
        let mut i: usize = 0;
        while i < total
            invariant
                self.wf(),
                total == self.cells@.len(),
                side == self.side,
                rad == self.radius,
                r == rad,
                i <= total,
                forall|j: int|
                    0 <= j < out@.len() ==> {
                        let k = #[trigger] out@[j].coord.key();
                        &&& on_board(r, k.0, k.1)
                        &&& slot(r, k.0, k.1) < i
                        &&& out@[j].control == self.cells@[slot(r, k.0, k.1)]
                    },
                forall|j1: int, j2: int|
                    0 <= j1 < j2 < out@.len() ==> #[trigger] cell_slot(r, out@[j1]) < #[trigger] cell_slot(
                        r,
                        out@[j2],
                    ),
                forall|k: (int, int)|
                    on_board(r, k.0, k.1) && #[trigger] slot(r, k.0, k.1) < i ==> exists|j: int|
                        0 <= j < out@.len() && #[trigger] out@[j].coord.key() == k,
            decreases total - i,
        {
            proof {
                assert(i / side < side) by (nonlinear_arith)
                    requires
                        i < side * side,
                        side > 0,
                ;
                vstd::arithmetic::div_mod::lemma_fundamental_div_mod(i as int, side as int);
            }
            let q = (i / side) as i32 - rad as i32;
            let rr = (i % side) as i32 - rad as i32;
            let ghost before = out@;
            if self.on_board_exec(q, rr) {
                let coord = HexCoordinate { q: q as i16, r: rr as i16 };
                proof {
                    assert(slot(r, q as int, rr as int) == i) by (nonlinear_arith)
                        requires
                            i == side * (i / side) + i % side,
                            q == i / side - r,
                            rr == i % side - r,
                            side == 2 * r + 1,
                    ;
                }
                out.push(HexCell { coord, control: self.cells[i] });
                proof {
                    assert(cell_slot(r, out@[before.len() as int]) == i);
                    assert forall|j1: int, j2: int|
                        0 <= j1 < j2 < out@.len() implies #[trigger] cell_slot(r, out@[j1])
                        < #[trigger] cell_slot(r, out@[j2]) by {
                        if j2 < before.len() {
                            assert(out@[j1] == before[j1] && out@[j2] == before[j2]);
                        } else {
                            assert(out@[j1] == before[j1]);
                            assert(out@[j1].coord.key() == before[j1].coord.key());
                        }
                    }
                    assert forall|k: (int, int)|
                        on_board(r, k.0, k.1) && #[trigger] slot(r, k.0, k.1) < i + 1 implies exists|
                        j: int,
                    | 0 <= j < out@.len() && #[trigger] out@[j].coord.key() == k by {
                        if slot(r, k.0, k.1) == i {
                            if k != coord.key() {
                                lemma_slot_injective(r, k, coord.key());
                            }
                            assert(out@[before.len() as int].coord.key() == k);
                        } else {
                            let j = choose|j: int|
                                0 <= j < before.len() && #[trigger] before[j].coord.key() == k;
                            assert(out@[j] == before[j]);
                        }
                    }
                }
            } else {
                proof {
                    assert forall|k: (int, int)|
                        on_board(r, k.0, k.1) && #[trigger] slot(r, k.0, k.1) < i + 1 implies exists|
                        j: int,
                    | 0 <= j < out@.len() && #[trigger] out@[j].coord.key() == k by {
                        if slot(r, k.0, k.1) == i {
                            lemma_slot_bounds(r, k.0, k.1);
                        }
                    }
                }
            }
            i = i + 1;
        }
        proof {
            assert forall|k: (int, int)| #[trigger] self@.dom().contains(k) implies exists|j: int|
                0 <= j < out@.len() && #[trigger] out@[j].coord.key() == k by {
                lemma_slot_bounds(r, k.0, k.1);
                assert(slot(r, k.0, k.1) < i);
            }
            assert forall|j: int| 0 <= j < out@.len() implies self@.dom().contains(
                #[trigger] out@[j].coord.key(),
            ) && out@[j].control == self@[out@[j].coord.key()] by {}
            assert forall|j1: int, j2: int|
                0 <= j1 < j2 < out@.len() implies #[trigger] out@[j1].coord != #[trigger] out@[j2].coord by {
                assert(cell_slot(r, out@[j1]) < cell_slot(r, out@[j2]));
            }
        }
        out
    }
}

} // verus!
