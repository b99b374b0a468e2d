use hex_turret::coord::{HexCoordinate, HexDirection};
use hex_turret::line::{hex_direction, line_draw};
use hex_turret::pixel::PixelPoint;
use hex_turret::rounding::cube_round;

const HEX_SIZE: f32 = 32.0;

fn hex(q: i16, r: i16) -> HexCoordinate {
    HexCoordinate::from_qr(q, r)
}

#[test]
fn hex_position_to_pixel_math() {
    let (q, r) = (3, 2);
    let h = HexCoordinate::from_qr(q, r);
    let correct_x = HEX_SIZE * (3f32.sqrt() * q as f32 + (3f32.sqrt() / 2f32) * r as f32);
    let correct_y = HEX_SIZE * ((3f32 / 2f32) * r as f32);

    let p = h.to_pixel();
    assert_eq!(p.scale, 1);
    assert_eq!(p.x, 8);
    assert_eq!(p.y, 6);
    let x = p.x as f32 * HEX_SIZE * 3f32.sqrt() / 2f32;
    let y = p.y as f32 * HEX_SIZE / 2f32;
    assert!((x - correct_x).abs() < 1e-3);
    assert!((y - correct_y).abs() < 1e-3);
}

#[test]
fn get_direction() {
    let origin = hex(0, 0);
    assert_eq!(hex_direction(origin, origin), HexDirection::E);
    assert_eq!(hex_direction(origin, hex(3, 0)), HexDirection::E);
    assert_eq!(hex_direction(origin, hex(2, -2)), HexDirection::NE);
    assert_eq!(hex_direction(origin, hex(0, 4)), HexDirection::SE);
    assert_eq!(hex_direction(origin, hex(-1, 1)), HexDirection::SW);
    assert_eq!(hex_direction(origin, hex(-5, 0)), HexDirection::W);
    assert_eq!(hex_direction(origin, hex(0, -2)), HexDirection::NW);
    assert_eq!(hex_direction(hex(4, -1), hex(4, 3)), HexDirection::SE);
}

#[test]
fn direction_offsets_match_neighbors() {
    let h = hex(2, -1);
    let n = h.neighbors();
    let dirs = [
        HexDirection::NE,
        HexDirection::E,
        HexDirection::SE,
        HexDirection::SW,
        HexDirection::W,
        HexDirection::NW,
    ];
    for (i, d) in dirs.iter().enumerate() {
        assert_eq!(h.plus(d.to_hex()), n[i]);
    }
}

#[test]
fn cube_invariant_holds() {
    for q in -5i16..=5 {
        for r in -5i16..=5 {
            let h = hex(q, r);
            assert_eq!(h.q as i32 + h.r as i32 + h.s(), 0);
        }
    }
    let (q, r, s) = cube_round(7, -2, -5, 3);
    assert_eq!(q + r + s, 0);
}

#[test]
fn cube_round_recomputes_largest_error() {
    // (0.5, 0, -0.5): q and s tie on error, r does not exceed s, so s is recomputed.
    assert_eq!(cube_round(3, 0, -3, 6), (1, 0, -1));
    // (1.4, -0.2, -1.2): q has the largest error and is recomputed.
    assert_eq!(cube_round(14, -2, -12, 10), (1, 0, -1));
    // (0.2, 0.4, -0.6): r and s tie on error, so s is recomputed.
    assert_eq!(cube_round(2, 4, -6, 10), (0, 0, 0));
    // (0.1, 0.45, -0.55): r and s tie again, so s is recomputed.
    assert_eq!(cube_round(2, 9, -11, 20), (0, 0, 0));
    // (0.1, 0.6, -0.7): r has the larger error, so r is recomputed.
    assert_eq!(cube_round(2, 12, -14, 20), (0, 1, -1));
}

#[test]
fn pixel_round_trip() {
    for q in -20i16..=20 {
        for r in -20i16..=20 {
            let h = hex(q, r);
            assert_eq!(HexCoordinate::from_pixel(h.to_pixel()), h);
        }
    }
    let far = hex(32766, -32766);
    assert_eq!(HexCoordinate::from_pixel(far.to_pixel()), far);
}

#[test]
fn pixel_boundaries_round_away_from_zero() {
    let right = PixelPoint { x: 1, y: 0, scale: 1 };
    assert_eq!(HexCoordinate::from_pixel(right), hex(1, 0));
    let left = PixelPoint { x: -1, y: 0, scale: 1 };
    assert_eq!(HexCoordinate::from_pixel(left), hex(-1, 0));
    let near_centre = PixelPoint { x: 17, y: 5, scale: 8 };
    assert_eq!(HexCoordinate::from_pixel(near_centre), hex(1, 0));
}

#[test]
fn distance_symmetry_and_identity() {
    let a = hex(1, -3);
    let b = hex(-2, 4);
    assert_eq!(a.distance(b), b.distance(a));
    assert_eq!(a.distance(a), 0);
    assert_eq!(a.distance(b), 7);
    assert_eq!(hex(0, 0).distance(hex(3, -1)), 3);
}

#[test]
fn neighbors_exclude_self() {
    for q in -3i16..=3 {
        for r in -3i16..=3 {
            let h = hex(q, r);
            let n = h.neighbors();
            assert!(n.iter().all(|x| *x != h));
            assert!(n.iter().all(|x| x.distance(h) == 1));
        }
    }
}

#[test]
fn line_endpoints_and_length() {
    let pairs = [
        (hex(0, 0), hex(3, 0)),
        (hex(-2, 1), hex(4, -3)),
        (hex(5, 5), hex(-5, 2)),
        (hex(1, 1), hex(1, 1)),
    ];
    for (a, b) in pairs {
        let line = line_draw(a, b);
        assert_eq!(line.len(), a.distance(b) as usize + 1);
        assert_eq!(line[0], a);
        assert_eq!(*line.last().unwrap(), b);
        for w in line.windows(2) {
            assert_eq!(w[0].distance(w[1]), 1);
        }
    }
}

#[test]
fn line_straight_and_single() {
    assert_eq!(line_draw(hex(0, 0), hex(3, 0)), vec![hex(0, 0), hex(1, 0), hex(2, 0), hex(3, 0)]);
    assert_eq!(line_draw(hex(2, -2), hex(2, -2)), vec![hex(2, -2)]);
    assert_eq!(line_draw(hex(0, 0), hex(0, -2)), vec![hex(0, 0), hex(0, -1), hex(0, -2)]);
}

#[test]
fn coordinate_arithmetic() {
    let a = hex(2, -3);
    let b = hex(-1, 5);
    assert_eq!(a.plus(b), hex(1, 2));
    assert_eq!(a.minus(b), hex(3, -8));
    assert_eq!(a.scaled(3), hex(6, -9));
}

#[test]
fn range_checks() {
    assert!(hex(32766, -32766).is_in_bounds());
    assert!(!hex(32767, 0).is_in_bounds());
    assert!(!hex(0, -32767).is_in_bounds());
    assert!(hex(32766, -32766).to_pixel().is_in_range());
    assert!(PixelPoint { x: 17, y: 5, scale: 8 }.is_in_range());
    assert!(!PixelPoint { x: 1, y: 0, scale: 0 }.is_in_range());
    assert!(!PixelPoint { x: 1, y: 0, scale: 16_777_217 }.is_in_range());
    assert!(PixelPoint { x: 65532, y: 0, scale: 1 }.is_in_range());
    assert!(!PixelPoint { x: 65533, y: 0, scale: 1 }.is_in_range());
    assert!(!PixelPoint { x: 0, y: 98299, scale: 1 }.is_in_range());
}
