//! Properties that hold across the operations of the library.
use vstd::prelude::*;
use crate::control::{
    decay_channel,
    decay_ticks,
    transfer_spec,
    ControlVector,
    Faction,
    MAX_CONTROL_VALUE,
};
use crate::coord::HexCoordinate;
use crate::grid::{
    count_dirs,
    diffused_channel,
    inflow,
    key_step,
    neighbor_count,
    outflow,
    decay_spec,
    diffuse_spec,
    diffused_cell,
    inject_path,
    inject_spec,
    Board,
};
use crate::line::{distance_spec, lemma_line_endpoints, line_spec};
use crate::pixel::{lemma_pixel_round_trip, pixel_hex, PixelPoint};
use crate::rounding::{cube_round_spec, lemma_cube_round_near};

verus! {

/// Every control vector on the board is within range.
pub open spec fn board_in_range(m: Board) -> bool {
    forall|k: (int, int)| #[trigger] m.dom().contains(k) ==> m[k].wf()
}

/// Every hex satisfies `q + r + s == 0`, and so does every result of cube
/// rounding, the step that produces hexes from fractional points.
pub proof fn law_cube_invariant(h: HexCoordinate, nq: int, nr: int, ns: int, d: int)
    requires
        nq + nr + ns == 0,
        d > 0,
    ensures
        h.q + h.r + h.s_spec() == 0,
        cube_round_spec(nq, nr, ns, d).0 + cube_round_spec(nq, nr, ns, d).1 + cube_round_spec(
            nq,
            nr,
            ns,
            d,
        ).2 == 0,
{
    lemma_cube_round_near(nq, nr, ns, d);
}

/// The centre of a hex converts to a point that converts back to that hex.
pub proof fn law_pixel_round_trip(h: HexCoordinate)
    requires
        h.in_bounds(),
    ensures
        (PixelPoint {
            x: h.pixel_spec().0 as i64,
            y: h.pixel_spec().1 as i64,
            scale: 1,
        }).in_range(),
        pixel_hex(h.pixel_spec().0, h.pixel_spec().1, 1) == h.key(),
{
    lemma_pixel_round_trip(h);
}

/// Distance is symmetric, and zero exactly between a hex and itself.
pub proof fn law_distance_symmetry_identity(a: HexCoordinate, b: HexCoordinate)
    ensures
        distance_spec(a, b) == distance_spec(b, a),
        distance_spec(a, a) == 0,
        distance_spec(a, b) == 0 <==> a == b,
{
}

/// No neighbour of a hex is the hex itself.
pub proof fn law_neighbor_exclusion(h: HexCoordinate)
    ensures
        forall|d: int| 0 <= d < 6 ==> #[trigger] h.step(d) != h.key(),
{
}

/// A line starts at its first endpoint, ends at its second, and has one hex
/// more than the distance between them.
pub proof fn law_line_endpoints(a: HexCoordinate, b: HexCoordinate)
    ensures
        line_spec(a, b).len() == distance_spec(a, b) + 1,
        line_spec(a, b)[0] == a.key(),
        line_spec(a, b)[line_spec(a, b).len() - 1] == b.key(),
{
    if distance_spec(a, b) >= 1 {
        lemma_line_endpoints(a, b);
    } else {
        assert(a.key() == b.key());
    }
}

/// Decay, diffusion and injection keep every channel of every hex within
/// `0..=MAX_CONTROL_VALUE`.
pub proof fn law_control_clamping(
    m: Board,
    k: (int, int),
    delta: ControlVector,
    path: Seq<HexCoordinate>,
)
    requires
        board_in_range(m),
    ensures
        board_in_range(decay_spec(m)),
        board_in_range(diffuse_spec(m)),
        board_in_range(inject_spec(m, k, delta)),
        board_in_range(inject_path(m, path, delta)),
    decreases path.len(),
{
    assert forall|j: (int, int)| #[trigger] decay_spec(m).dom().contains(j) implies decay_spec(
        m,
    )[j].wf() by {
        assert(m[j].wf());
    }
    assert forall|j: (int, int)| #[trigger] diffuse_spec(m).dom().contains(j) implies diffuse_spec(
        m,
    )[j].wf() by {
        assert(diffuse_spec(m)[j] == diffused_cell(m, j));
    }
    if path.len() > 0 {
        law_control_clamping(m, k, delta, path.drop_last());
        let before = inject_path(m, path.drop_last(), delta);
        assert forall|j: (int, int)| #[trigger] inject_spec(
            before,
            path.last().key(),
            delta,
        ).dom().contains(j) implies inject_spec(before, path.last().key(), delta)[j].wf() by {
            assert(before.dom().contains(j));
        }
    }
}

/// Without injection, each decay tick strictly lowers a positive channel
/// and keeps an empty one empty; a channel holding `c` is empty after at
/// most `c` ticks.
pub proof fn law_decay_monotonicity(c: nat, k: nat)
    ensures
        decay_ticks(c as int, k) >= 0,
        decay_ticks(c as int, k) > 0 ==> decay_ticks(c as int, k + 1) < decay_ticks(c as int, k),
        decay_ticks(c as int, k) == 0 ==> decay_ticks(c as int, k + 1) == 0,
        decay_ticks(c as int, k) <= c,
        decay_ticks(c as int, k) <= c - k || decay_ticks(c as int, k) == 0,
        k >= c ==> decay_ticks(c as int, k) == 0,
    decreases k,
{
    if k > 0 {
        law_decay_monotonicity(c, (k - 1) as nat);
    }
    let x = decay_ticks(c as int, k);
    assert(decay_ticks(c as int, k + 1) == decay_channel(x));
    assert(x * 1 / 4 >= 0 && x * 1 / 4 <= x) by (nonlinear_arith)
        requires
            x >= 0,
    ;
}

/// A ceiling on a channel that started at most `MAX_CONTROL_VALUE`, after
/// `k` decay ticks.
spec fn decay_ceiling(k: nat) -> int
    decreases k,
{
    if k == 0 {
        MAX_CONTROL_VALUE as int
    } else {
        (3 * decay_ceiling((k - 1) as nat) + 3) / 4
    }
}

proof fn lemma_decay_under_ceiling(c: nat, k: nat)
    requires
        c <= MAX_CONTROL_VALUE,
    ensures
        0 <= decay_ticks(c as int, k) <= decay_ceiling(k),
    decreases k,
{
    if k > 0 {
        lemma_decay_under_ceiling(c, (k - 1) as nat);
        let x = decay_ticks(c as int, (k - 1) as nat);
        let b = decay_ceiling((k - 1) as nat);
        assert(x - x * 1 / 4 <= (3 * b + 3) / 4 && x * 1 / 4 <= x);
    }
}

/// Any channel within range is empty after thirty decay ticks, and stays
/// empty after that.
pub proof fn law_decay_empties_within_thirty_ticks(c: nat, k: nat)
    requires
        c <= MAX_CONTROL_VALUE,
        k >= 30,
    ensures
        decay_ticks(c as int, k) == 0,
    decreases k,
{
    if k == 30 {
        lemma_decay_under_ceiling(c, 30);
        reveal_with_fuel(decay_ceiling, 31);
        assert(decay_ceiling(30) <= 100000);
        lemma_decay_under_ceiling(c, 29);
    } else {
        law_decay_empties_within_thirty_ticks(c, (k - 1) as nat);
    }
}

/// A diffusion transfer from a richer hex to a poorer neighbour moves a
/// non-negative amount that never leaves the giver below the receiver, and
/// moves something once the gap reaches `2 * 6 * 100` millionths; what one
/// side loses the other gains.
pub proof fn law_diffusion_fairness(src: int, dst: int, n: int)
    requires
        0 <= dst < src,
        1 <= n <= 6,
    ensures
        transfer_spec(src, dst, n) >= 0,
        dst + transfer_spec(src, dst, n) <= src - transfer_spec(src, dst, n),
        src - dst >= 1200 ==> transfer_spec(src, dst, n) > 0,
        (src - transfer_spec(src, dst, n)) + (dst + transfer_spec(src, dst, n)) == src + dst,
{
    let t = transfer_spec(src, dst, n);
    let gap = src - dst;
    assert(t == gap * 1 / (2 * n * 100));
    assert(t >= 0 && 2 * t <= gap && (gap >= 1200 ==> t > 0)) by (nonlinear_arith)
        requires
            t == gap * 1 / (2 * n * 100),
            gap > 0,
            1 <= n <= 6,
    ;
}

proof fn lemma_step_back(c: (int, int), d0: int, j: int)
    requires
        0 <= d0 < 6,
        0 <= j < 6,
    ensures
        key_step(key_step(c, d0), j) == c <==> j == (d0 + 3) % 6,
        key_step(c, j) != c,
{
}

proof fn lemma_count_dirs_bounds(m: Board, c: (int, int), d0: int, d: nat)
    requires
        0 <= d0 < 6,
        m.dom().contains(key_step(c, d0)),
    ensures
        0 <= count_dirs(m, c, d) <= d,
        d > d0 ==> count_dirs(m, c, d) >= 1,
    decreases d,
{
    if d > 0 {
        lemma_count_dirs_bounds(m, c, d0, (d - 1) as nat);
    }
}

/// With only `c` holding channel `f`, `c` gives `t` to each neighbour and
/// receives nothing; a neighbour `n` of `c` receives `t` and gives nothing.
proof fn lemma_lone_source_flows(
    m: Board,
    c: (int, int),
    d0: int,
    f: Faction,
    t: int,
    d: nat,
)
    requires
        0 <= d0 < 6,
        d <= 6,
        m.dom().contains(c),
        m.dom().contains(key_step(c, d0)),
        m[c].channel(f) > 0,
        forall|k: (int, int)| #[trigger] m.dom().contains(k) && k != c ==> m[k].channel(f) == 0,
        t == transfer_spec(m[c].channel(f), 0, neighbor_count(m, c)),
    ensures
        outflow(m, c, f, d) == count_dirs(m, c, d) * t,
        inflow(m, c, f, d) == 0,
        outflow(m, key_step(c, d0), f, d) == 0,
        inflow(m, key_step(c, d0), f, d) == if d > (d0 + 3) % 6 {
            t
        } else {
            0
        },
    decreases d,
{
    if d > 0 {
        lemma_lone_source_flows(m, c, d0, f, t, (d - 1) as nat);
        let j = d - 1;
        lemma_step_back(c, d0, j);
        lemma_step_back(c, d0, d0);
        let n = key_step(c, d0);
        assert(m[n].channel(f) == 0);
        let nb = key_step(n, j);
        if j == (d0 + 3) % 6 {
            assert(nb == c);
            assert(transfer_spec(m[nb].channel(f), m[n].channel(f), neighbor_count(m, nb)) == t);
        } else if m.dom().contains(nb) {
            assert(nb != c);
            assert(m[nb].channel(f) == 0);
            assert(transfer_spec(m[nb].channel(f), m[n].channel(f), neighbor_count(m, nb)) == 0);
        }
        if m.dom().contains(nb) {
            assert(transfer_spec(m[n].channel(f), m[nb].channel(f), neighbor_count(m, n)) == 0);
        }
        let a = count_dirs(m, c, j as nat);
        let b: int = if m.dom().contains(key_step(c, j)) {
            1
        } else {
            0
        };
        assert(count_dirs(m, c, d) == a + b);
        assert((a + b) * t == a * t + b * t) by (nonlinear_arith);
        assert(b * t == if b == 1 {
            t
        } else {
            0
        }) by (nonlinear_arith)
            requires
                b == 0 || b == 1,
        ;
        if m.dom().contains(key_step(c, j)) {
            assert(m[key_step(c, j)].channel(f) == 0);
        }
        if m.dom().contains(key_step(key_step(c, d0), j)) && j != (d0 + 3) % 6 {
            assert(m[key_step(key_step(c, d0), j)].channel(f) == 0);
        }
    }
}

/// On any board where a single hex `c` holds `v` of a channel and every
/// other hex holds none of it, one diffusion step gives a neighbour `n` of
/// `c` a positive amount, leaves `c` with less than `v`, and does not raise
/// the total that `c` and `n` hold together.
pub proof fn law_diffusion_fairness_on_board(m: Board, c: (int, int), d0: int, f: Faction, v: int)
    requires
        0 <= d0 < 6,
        m.dom().contains(c),
        m.dom().contains(key_step(c, d0)),
        m[c].channel(f) == v,
        1200 <= v <= MAX_CONTROL_VALUE,
        forall|k: (int, int)| #[trigger] m.dom().contains(k) && k != c ==> m[k].channel(f) == 0,
    ensures
        diffused_channel(m, key_step(c, d0), f) > 0,
        diffused_channel(m, c, f) < v,
        diffused_channel(m, c, f) + diffused_channel(m, key_step(c, d0), f) <= v,
{
    let n = key_step(c, d0);
    let nc = neighbor_count(m, c);
    lemma_count_dirs_bounds(m, c, d0, 6);
    let t = transfer_spec(v, 0, nc);
    lemma_lone_source_flows(m, c, d0, f, t, 6);
    lemma_step_back(c, d0, d0);
    assert(n != c);
    assert(m[n].channel(f) == 0);
    assert(t == v * 1 / (2 * nc * 100));
    assert(1 <= t && t <= nc * t && 1 <= nc * t && nc * t <= v / 200 && t <= v) by (nonlinear_arith)
        requires
            t == v * 1 / (2 * nc * 100),
            1 <= nc <= 6,
            1200 <= v,
    ;
    assert(outflow(m, c, f, 6) == nc * t);
}

/// Ties between channels go to `A`, then `B`, then `Neutral`, whatever the
/// values.
pub proof fn law_faction_tie_order(v: ControlVector)
    ensures
        v.a >= v.b && v.a >= v.neutral ==> v.max_status_spec() == Faction::A,
        v.b > v.a && v.b >= v.neutral ==> v.max_status_spec() == Faction::B,
        v.neutral > v.a && v.neutral > v.b ==> v.max_status_spec() == Faction::Neutral,
{
}

} // verus!
