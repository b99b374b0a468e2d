//! Injectors: control rays along a hex line, and energy sources that feed
//! the hex they stand on.
use vstd::prelude::*;
use crate::control::{cap, ControlVector};
use crate::coord::HexCoordinate;
use crate::grid::{inject_path, inject_spec, Board, HexGrid};
use crate::line::{distance_spec, line_draw, line_spec};

verus! {

/// A beam that adds `delta` to every hex of `path` once per tick while
/// `ttl` ticks remain.
pub struct ControlRay {
    pub path: Vec<HexCoordinate>,
    pub delta: ControlVector,
    pub ttl: u32,
}

/// A ray goes on after this tick: it has ticks left after this one and still
/// carries some control.
pub open spec fn ray_survives(r: ControlRay) -> bool {
    r.ttl > 1 && !(r.delta == ControlVector::zero_spec())
}

/// The rays that remain after one tick, in their order, one tick older.
pub open spec fn aged_rays(rays: Seq<ControlRay>) -> Seq<ControlRay>
    decreases rays.len(),
{
    if rays.len() == 0 {
        Seq::empty()
    } else {
        let rest = aged_rays(rays.drop_last());
        let r = rays.last();
        if ray_survives(r) {
            rest.push(ControlRay { path: r.path, delta: r.delta, ttl: (r.ttl - 1) as u32 })
        } else {
            rest
        }
    }
}

/// The board after each ray with ticks left has added its control, in order.
pub open spec fn apply_rays(m: Board, rays: Seq<ControlRay>) -> Board
    decreases rays.len(),
{
    if rays.len() == 0 {
        m
    } else {
        let before = apply_rays(m, rays.drop_last());
        let r = rays.last();
        if r.ttl > 0 {
            inject_path(before, r.path@, r.delta)
        } else {
            before
        }
    }
}

impl ControlRay {
    /// A ray along the line from `origin` to `target`.
    pub fn fire(origin: HexCoordinate, target: HexCoordinate, delta: ControlVector, ttl: u32) -> (ray:
        ControlRay)
        requires
            origin.in_bounds(),
            target.in_bounds(),
        ensures
            ray.path@.len() == line_spec(origin, target).len(),
            forall|i: int|
                0 <= i < ray.path@.len() ==> #[trigger] ray.path@[i].key() == line_spec(
                    origin,
                    target,
                )[i],
            ray.path@.len() == distance_spec(origin, target) + 1,
            ray.path@[0] == origin,
            ray.path@[ray.path@.len() - 1] == target,
            ray.delta == delta,
            ray.ttl == ttl,
    {
        ControlRay { path: line_draw(origin, target), delta, ttl }
    }

    /// The ray has run out of ticks or carries no control.
    pub fn is_spent(&self) -> (b: bool)
        ensures
            b == (self.ttl == 0 || self.delta == ControlVector::zero_spec()),
    {
        self.ttl == 0 || self.delta.is_empty()
    }
}

/// One tick of the rays: each ray with ticks left adds its control along its
/// path; then rays that are out of ticks or carry nothing are dropped.
pub fn run_rays(grid: &mut HexGrid, rays: Vec<ControlRay>) -> (alive: Vec<ControlRay>)
    requires
        old(grid).wf(),
    ensures
        final(grid).wf(),
        final(grid).radius_spec() == old(grid).radius_spec(),
        final(grid).structures() == old(grid).structures(),
        final(grid)@ == apply_rays(old(grid)@, rays@),
        alive@ == aged_rays(rays@),
{
    let ghost all = rays@;
    let n = rays.len();
    let mut rays = rays;
    let mut pending: Vec<ControlRay> = Vec::new();
    while rays.len() > 0
        invariant
            rays@.len() + pending@.len() == n,
            n == all.len(),
            rays@ == all.subrange(0, rays@.len() as int),
            forall|j: int| 0 <= j < pending@.len() ==> #[trigger] pending@[j] == all[n - 1 - j],
        decreases rays@.len(),
    {
        let r = rays.pop().unwrap();
        pending.push(r);
    }
    let mut alive: Vec<ControlRay> = Vec::new();
    let mut done: usize = 0;
    while pending.len() > 0
        invariant
            grid.wf(),
            grid.radius_spec() == old(grid).radius_spec(),
            grid.structures() == old(grid).structures(),
            n == all.len(),
            done + pending@.len() == n,
            forall|j: int| 0 <= j < pending@.len() ==> #[trigger] pending@[j] == all[n - 1 - j],
            grid@ == apply_rays(old(grid)@, all.subrange(0, done as int)),
            alive@ == aged_rays(all.subrange(0, done as int)),
        decreases pending@.len(),
    {
        let r = pending.pop().unwrap();
        proof {
            assert(r == all[done as int]);
            assert(all.subrange(0, done + 1).drop_last() =~= all.subrange(0, done as int));
        }
        if r.ttl > 0 {
            grid.inject_path(&r.path, r.delta);
        }
        if r.ttl > 1 && !r.delta.is_empty() {
            alive.push(ControlRay { path: r.path, delta: r.delta, ttl: r.ttl - 1 });
        }
        done = done + 1;
    }
    proof {
        assert(all.subrange(0, n as int) =~= all);
    }
    alive
}

/// A structure that feeds neutral control into the hexes around it.
#[derive(Clone, Copy, Debug, PartialEq, Eq, Structural)]
pub struct EnergySource {
    pub position: HexCoordinate,
    pub flow_rate: u32,
}

impl EnergySource {
    /// The control added to the source's hex per emission.
    pub open spec fn control_spec(self) -> ControlVector {
        ControlVector { a: 0, b: 0, neutral: cap(self.flow_rate as int) as u32 }
    }

    /// The control added to the source's hex per emission.
    pub fn to_control(&self) -> (v: ControlVector)
        ensures
            v == self.control_spec(),
    {
        ControlVector::new(0, 0, self.flow_rate)
    }

    /// Feeds the hex the source stands on, capped; does nothing off the board.
    pub fn emit(&self, grid: &mut HexGrid)
        requires
            old(grid).wf(),
        ensures
            final(grid).wf(),
            final(grid).radius_spec() == old(grid).radius_spec(),
            final(grid).structures() == old(grid).structures(),
            final(grid)@ == inject_spec(old(grid)@, self.position.key(), self.control_spec()),
    {
        let v = self.to_control();
        grid.inject(self.position, v);
    }
}

} // verus!
