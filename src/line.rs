//! Hex lines by exact linear interpolation of cube coordinates.
use vstd::prelude::*;
use crate::coord::{dir_dq, dir_dr, hex_distance, magnitude, HexCoordinate, HexDirection};
use crate::rounding::{
    cube_round,
    cube_round_spec,
    lemma_cube_round_exact,
    lemma_cube_round_near,
    lemma_round_div_nearest,
    round_div,
};

verus! {

/// Cube distance between two hexes.
pub open spec fn distance_spec(a: HexCoordinate, b: HexCoordinate) -> int {
    hex_distance(a.q as int, a.r as int, b.q as int, b.r as int)
}

/// Numerators, over `n`, of the cube point at `t = i / n` between `a` and `b`.
pub open spec fn line_numerators(a: HexCoordinate, b: HexCoordinate, n: int, i: int) -> (
    int,
    int,
    int,
) {
    (
        a.q * (n - i) + b.q * i,
        a.r * (n - i) + b.r * i,
        a.s_spec() * (n - i) + b.s_spec() * i,
    )
}

/// The hex at step `i` of `n` on the line from `a` to `b`.
pub open spec fn line_point(a: HexCoordinate, b: HexCoordinate, n: int, i: int) -> (int, int) {
    let (nq, nr, ns) = line_numerators(a, b, n, i);
    let (q, r, _s) = cube_round_spec(nq, nr, ns, n);
    (q, r)
}

/// The hexes on the line from `a` to `b`, one per step of the cube distance.
pub open spec fn line_spec(a: HexCoordinate, b: HexCoordinate) -> Seq<(int, int)> {
    let n = distance_spec(a, b);
    if n == 0 {
        seq![a.key()]
    } else {
        Seq::new((n + 1) as nat, |i: int| line_point(a, b, n, i))
    }
}

/// The offset `(dq, dr)` is one of the six unit directions.
pub open spec fn is_unit_step(dq: int, dr: int) -> bool {
    exists|d: int| 0 <= d < 6 && dq == dir_dq(d) && dr == dir_dr(d)
}

/// The cube distance is the largest of the three axis differences.
pub proof fn lemma_distance_is_max(a: HexCoordinate, b: HexCoordinate)
    ensures
        ({
            let dq = b.q - a.q;
            let dr = b.r - a.r;
            let ds = b.s_spec() - a.s_spec();
            &&& magnitude(dq) <= distance_spec(a, b)
            &&& magnitude(dr) <= distance_spec(a, b)
            &&& magnitude(ds) <= distance_spec(a, b)
            &&& (magnitude(dq) == distance_spec(a, b) || magnitude(dr) == distance_spec(a, b)
                || magnitude(ds) == distance_spec(a, b))
        }),
{
}

proof fn lemma_interpolation_between(x: int, y: int, n: int, i: int)
    requires
        0 <= i <= n,
    ensures
        (if x <= y {
            x
        } else {
            y
        }) * n <= x * (n - i) + y * i <= (if x <= y {
            y
        } else {
            x
        }) * n,
{
    if x <= y {
        assert(x * n <= x * (n - i) + y * i <= y * n) by (nonlinear_arith)
            requires
                0 <= i <= n,
                x <= y,
        ;
    } else {
        assert(y * n <= x * (n - i) + y * i <= x * n) by (nonlinear_arith)
            requires
                0 <= i <= n,
                y < x,
        ;
    }
}

/// Every hex of a line between in-bounds endpoints fits in a coordinate.
proof fn lemma_line_point_fits(a: HexCoordinate, b: HexCoordinate, n: int, i: int)
    requires
        a.in_bounds(),
        b.in_bounds(),
        1 <= n,
        0 <= i <= n,
    ensures
        ({
            let (nq, nr, ns) = line_numerators(a, b, n, i);
            let (q, r, s) = cube_round_spec(nq, nr, ns, n);
            &&& -32767 <= q <= 32767
            &&& -32767 <= r <= 32767
            &&& q + r + s == 0
        }),
{
    let (nq, nr, ns) = line_numerators(a, b, n, i);
    assert(ns == -nq - nr) by (nonlinear_arith)
        requires
            nq == a.q * (n - i) + b.q * i,
            nr == a.r * (n - i) + b.r * i,
            ns == a.s_spec() * (n - i) + b.s_spec() * i,
            a.s_spec() == -a.q - a.r,
            b.s_spec() == -b.q - b.r,
    ;
    lemma_cube_round_near(nq, nr, ns, n);
    lemma_interpolation_between(a.q as int, b.q as int, n, i);
    lemma_interpolation_between(a.r as int, b.r as int, n, i);
    let lq = if a.q <= b.q { a.q as int } else { b.q as int };
    let hq = if a.q <= b.q { b.q as int } else { a.q as int };
    let lr = if a.r <= b.r { a.r as int } else { b.r as int };
    let hr = if a.r <= b.r { b.r as int } else { a.r as int };
    assert(-32766 * n <= nq <= 32766 * n) by (nonlinear_arith)
        requires
            lq * n <= nq <= hq * n,
            -32766 <= lq,
            hq <= 32766,
            n >= 1,
    ;
    assert(-32766 * n <= nr <= 32766 * n) by (nonlinear_arith)
        requires
            lr * n <= nr <= hr * n,
            -32766 <= lr,
            hr <= 32766,
            n >= 1,
    ;
    let (q, r, s) = cube_round_spec(nq, nr, ns, n);
    assert(-32767 <= q <= 32767) by (nonlinear_arith)
        requires
            n >= 1,
            magnitude(q * n - nq) <= n,
            -32766 * n <= nq <= 32766 * n,
    ;
    assert(-32767 <= r <= 32767) by (nonlinear_arith)
        requires
            n >= 1,
            magnitude(r * n - nr) <= n,
            -32766 * n <= nr <= 32766 * n,
    ;
}

/// Rounding one axis of the first step of a line moves it by at most one
/// unit, and exactly one unit, with no error, when the axis changes fully.
proof fn lemma_axis_step(a: int, delta: int, n: int)
    requires
        n >= 1,
        magnitude(delta) <= n,
    ensures
        ({
            let k = round_div(a * n + delta, n) - a;
            &&& -1 <= k <= 1
            &&& round_div(a * n + delta, n) * n - (a * n + delta) == k * n - delta
            &&& k * n == (if k == 1 {
                n
            } else if k == -1 {
                -n
            } else {
                0
            })
            &&& -n <= 2 * (k * n - delta) <= n
        }),
{
    let x = a * n + delta;
    let rd = round_div(x, n);
    lemma_round_div_nearest(x, n);
    let k = rd - a;
    assert(rd * n - x == k * n - delta) by (nonlinear_arith)
        requires
            k == rd - a,
            x == a * n + delta,
    ;
    assert(-1 <= k <= 1) by (nonlinear_arith)
        requires
            n >= 1,
            -n <= 2 * (k * n - delta) <= n,
            -n <= delta <= n,
    ;
    if k == 1 {
        assert(k * n == n);
    } else if k == -1 {
        assert(k * n == -n) by (nonlinear_arith)
            requires
                k == -1,
        ;
    } else {
        assert(k * n == 0);
    }
}

/// The first step of a line between distinct hexes goes to a neighbour.
pub proof fn lemma_first_step_adjacent(a: HexCoordinate, b: HexCoordinate)
    requires
        distance_spec(a, b) >= 1,
    ensures
        ({
            let p = line_point(a, b, distance_spec(a, b), 1);
            is_unit_step(p.0 - a.q, p.1 - a.r)
        }),
{
    let n = distance_spec(a, b);
    lemma_distance_is_max(a, b);
    let aq = a.q as int;
    let ar = a.r as int;
    let as_ = a.s_spec();
    let dq = b.q - a.q;
    let dr = b.r - a.r;
    let ds = b.s_spec() - a.s_spec();
    let (nq, nr, ns) = line_numerators(a, b, n, 1);
    assert(nq == aq * n + dq && nr == ar * n + dr && ns == as_ * n + ds) by (nonlinear_arith)
        requires
            nq == a.q * (n - 1) + b.q * 1,
            nr == a.r * (n - 1) + b.r * 1,
            ns == a.s_spec() * (n - 1) + b.s_spec() * 1,
            aq == a.q,
            ar == a.r,
            as_ == a.s_spec(),
            dq == b.q - a.q,
            dr == b.r - a.r,
            ds == b.s_spec() - a.s_spec(),
    ;
    lemma_axis_step(aq, dq, n);
    lemma_axis_step(ar, dr, n);
    lemma_axis_step(as_, ds, n);
    let (q, r, s) = cube_round_spec(nq, nr, ns, n);
    let kq = q - aq;
    let kr = r - ar;
    assert(-1 <= kq <= 1 && -1 <= kr <= 1 && (kq != 0 || kr != 0) && -1 <= kq + kr <= 1);
    if kq == 1 && kr == -1 {
        assert(kq == dir_dq(0) && kr == dir_dr(0));
    } else if kq == 1 && kr == 0 {
        assert(kq == dir_dq(1) && kr == dir_dr(1));
    } else if kq == 0 && kr == 1 {
        assert(kq == dir_dq(2) && kr == dir_dr(2));
    } else if kq == -1 && kr == 1 {
        assert(kq == dir_dq(3) && kr == dir_dr(3));
    } else if kq == -1 && kr == 0 {
        assert(kq == dir_dq(4) && kr == dir_dr(4));
    } else {
        assert(kq == dir_dq(5) && kr == dir_dr(5));
    }
}

/// The endpoints of a line are its first and last hexes.
pub proof fn lemma_line_endpoints(a: HexCoordinate, b: HexCoordinate)
    requires
        distance_spec(a, b) >= 1,
    ensures
        line_point(a, b, distance_spec(a, b), 0) == a.key(),
        line_point(a, b, distance_spec(a, b), distance_spec(a, b)) == b.key(),
{
    let n = distance_spec(a, b);
    let (nq, nr, ns) = line_numerators(a, b, n, 0);
    assert(nq == a.q * n && nr == a.r * n && ns == (-a.q - a.r) * n) by (nonlinear_arith)
        requires
            nq == a.q * (n - 0) + b.q * 0,
            nr == a.r * (n - 0) + b.r * 0,
            ns == a.s_spec() * (n - 0) + b.s_spec() * 0,
            a.s_spec() == -a.q - a.r,
    ;
    lemma_cube_round_exact(a.q as int, a.r as int, n);
    let (mq, mr, ms) = line_numerators(a, b, n, n);
    assert(mq == b.q * n && mr == b.r * n && ms == (-b.q - b.r) * n) by (nonlinear_arith)
        requires
            mq == a.q * (n - n) + b.q * n,
            mr == a.r * (n - n) + b.r * n,
            ms == a.s_spec() * (n - n) + b.s_spec() * n,
            b.s_spec() == -b.q - b.r,
    ;
    lemma_cube_round_exact(b.q as int, b.r as int, n);
}

fn line_hex(a: HexCoordinate, b: HexCoordinate, n: u32, i: u32) -> (h: HexCoordinate)
    requires
        a.in_bounds(),
        b.in_bounds(),
        n == distance_spec(a, b),
        1 <= n,
        i <= n,
    ensures
        h.key() == line_point(a, b, n as int, i as int),
{
    let ni: i64 = n as i64;
    let ii: i64 = i as i64;
    let rest: i64 = ni - ii;
    let aq: i64 = a.q as i64;
    let ar: i64 = a.r as i64;
    let as_: i64 = -aq - ar;
    let bq: i64 = b.q as i64;
    let br: i64 = b.r as i64;
    let bs: i64 = -bq - br;
    proof {
        assert(n <= 131072);
        assert(magnitude(aq * rest) <= 65536 * 131072 && magnitude(ar * rest) <= 65536 * 131072
            && magnitude(as_ * rest) <= 65536 * 131072) by (nonlinear_arith)
            requires
                0 <= rest <= 131072,
                -32766 <= aq <= 32766,
                -32766 <= ar <= 32766,
                as_ == -aq - ar,
        ;
        assert(magnitude(bq * ii) <= 65536 * 131072 && magnitude(br * ii) <= 65536 * 131072
            && magnitude(bs * ii) <= 65536 * 131072) by (nonlinear_arith)
            requires
                0 <= ii <= 131072,
                -32766 <= bq <= 32766,
                -32766 <= br <= 32766,
                bs == -bq - br,
        ;
    }
    let nq: i64 = aq * rest + bq * ii;
    let nr: i64 = ar * rest + br * ii;
    let ns: i64 = as_ * rest + bs * ii;
    proof {
        assert(ns == -nq - nr) by (nonlinear_arith)
            requires
                nq == aq * rest + bq * ii,
                nr == ar * rest + br * ii,
                ns == as_ * rest + bs * ii,
                as_ == -aq - ar,
                bs == -bq - br,
        ;
        lemma_line_point_fits(a, b, n as int, i as int);
    }
    let (q, r, _s) = cube_round(nq, nr, ns, ni);
    HexCoordinate { q: q as i16, r: r as i16 }
}

/// The hexes on the straight line from `a` to `b`, both included.
pub fn line_draw(a: HexCoordinate, b: HexCoordinate) -> (line: Vec<HexCoordinate>)
    requires
        a.in_bounds(),
        b.in_bounds(),
    ensures
        line@.len() == line_spec(a, b).len(),
        forall|i: int| 0 <= i < line@.len() ==> #[trigger] line@[i].key() == line_spec(a, b)[i],
        line@.len() == distance_spec(a, b) + 1,
        line@[0] == a,
        line@[line@.len() - 1] == b,
{
    let n = a.distance(b);
    if n == 0 {
        let line = vec![a];
        proof {
            assert(a.key() == b.key());
        }
        return line;
    }
    let mut line: Vec<HexCoordinate> = Vec::new();
    let mut i: u32 = 0;
    while i <= n
        invariant
            n == distance_spec(a, b),
            1 <= n,
            a.in_bounds(),
            b.in_bounds(),
            i <= n + 1,
            line@.len() == i,
            forall|j: int| 0 <= j < i ==> #[trigger] line@[j].key() == line_point(a, b, n as int, j),
        decreases n + 1 - i,
    {
        let h = line_hex(a, b, n, i);
        line.push(h);
        i = i + 1;
    }
    proof {
        lemma_line_endpoints(a, b);
        assert(line@[0].key() == a.key());
        assert(line@[n as int].key() == b.key());
    }
    line
}

/// Direction of the first step from `a` towards `b`; `E` when they coincide.
pub fn hex_direction(a: HexCoordinate, b: HexCoordinate) -> (dir: HexDirection)
    requires
        a.in_bounds(),
        b.in_bounds(),
    ensures
        distance_spec(a, b) == 0 ==> dir == HexDirection::E,
        distance_spec(a, b) > 0 ==> ({
            let p = line_point(a, b, distance_spec(a, b), 1);
            dir_dq(dir.index()) == p.0 - a.q && dir_dr(dir.index()) == p.1 - a.r
        }),
{
    let n = a.distance(b);
    if n == 0 {
        return HexDirection::E;
    }
    let next = line_hex(a, b, n, 1);
    proof {
        lemma_first_step_adjacent(a, b);
    }
    let dq: i32 = next.q as i32 - a.q as i32;
    let dr: i32 = next.r as i32 - a.r as i32;
    if dq == 1 && dr == -1 {
        HexDirection::NE
    } else if dq == 1 && dr == 0 {
        HexDirection::E
    } else if dq == 0 && dr == 1 {
        HexDirection::SE
    } else if dq == -1 && dr == 1 {
        HexDirection::SW
    } else if dq == -1 && dr == 0 {
        HexDirection::W
    } else {
        proof {
            let d = choose|d: int| 0 <= d < 6 && dq == dir_dq(d) && dr == dir_dr(d);
            assert(d == 5);
        }
        HexDirection::NW
    }
}

} // verus!
