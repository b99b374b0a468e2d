use hex_turret::control::{
    decay_value, transfer, ControlVector, Faction, CONTROL_UNIT, MAX_CONTROL_VALUE, MIN_CONTROL,
};
use hex_turret::coord::{HexCoordinate, HexDirection};
use hex_turret::grid::HexGrid;
use hex_turret::ray::{run_rays, ControlRay, EnergySource};

fn hex(q: i16, r: i16) -> HexCoordinate {
    HexCoordinate::from_qr(q, r)
}

fn a_only(a: u32) -> ControlVector {
    ControlVector::new(a, 0, 0)
}

fn board_coords(radius: i16) -> Vec<HexCoordinate> {
    let mut out = Vec::new();
    for q in -radius..=radius {
        for r in -radius..=radius {
            if (q + r).abs() <= radius {
                out.push(hex(q, r));
            }
        }
    }
    out
}

fn a_of(grid: &HexGrid, h: HexCoordinate) -> u32 {
    grid.control_at(h).unwrap().a
}

#[test]
fn control_vector_add_caps_each_channel() {
    let v = ControlVector::new(400_000_000, 10, 499_999_999);
    let w = v.plus(ControlVector::new(200_000_000, 20, 5));
    assert_eq!(w, ControlVector { a: MAX_CONTROL_VALUE, b: 30, neutral: MAX_CONTROL_VALUE });
    let mut x = v;
    x.absorb(ControlVector::new(1, 1, 1));
    assert_eq!(x, ControlVector { a: 400_000_001, b: 11, neutral: 500_000_000 });
    assert_eq!(ControlVector::new(900_000_000, 0, 0).a, MAX_CONTROL_VALUE);
    assert_eq!(MAX_CONTROL_VALUE, 500 * CONTROL_UNIT);
}

#[test]
fn control_vector_channels() {
    let mut v = ControlVector::new(5, 6, 7);
    assert_eq!(v.get(Faction::A), 5);
    assert_eq!(v.get(Faction::B), 6);
    assert_eq!(v.get(Faction::Neutral), 7);
    v.set(Faction::B, 1_000_000_000);
    assert_eq!(v.b, MAX_CONTROL_VALUE);
    v.spend(Faction::A, 3);
    assert_eq!(v.a, 2);
    v.spend(Faction::Neutral, 100);
    assert_eq!(v.neutral, 0);
    assert_eq!(v.total(), 2 + MAX_CONTROL_VALUE as u64);
    assert_eq!(ControlVector::new(10, 3, 50).drain(5), ControlVector { a: 5, b: 0, neutral: 45 });
    assert!(ControlVector::zero().is_empty());
    assert!(!ControlVector::new(0, 0, 1).is_empty());
}

#[test]
fn decay_formula() {
    assert_eq!(decay_value(500_000_000), 375_000_000);
    assert_eq!(decay_value(1_000_000), 750_000);
    assert_eq!(decay_value(133_334), 100_001);
    assert_eq!(decay_value(133_333), 0);
    assert_eq!(decay_value(MIN_CONTROL), 0);
    assert_eq!(MIN_CONTROL, CONTROL_UNIT / 10);
    assert_eq!(decay_value(0), 0);
    let v = ControlVector::new(1_000_000, 400_000, 20).decayed();
    assert_eq!(v, ControlVector { a: 750_000, b: 300_000, neutral: 0 });
}

#[test]
fn decay_monotonicity() {
    let mut c = MAX_CONTROL_VALUE;
    let mut ticks = 0;
    while c > 0 {
        let next = decay_value(c);
        assert!(next < c);
        c = next;
        ticks += 1;
    }
    assert_eq!(decay_value(c), 0);
    assert!(ticks <= 30);

    let mut grid = HexGrid::new(1);
    grid.inject(hex(0, 0), ControlVector::new(MAX_CONTROL_VALUE, 1_000, 0));
    let mut prev = a_of(&grid, hex(0, 0));
    for _ in 0..60 {
        grid.decay();
        let now = a_of(&grid, hex(0, 0));
        assert!(now < prev || (now == 0 && prev == 0));
        prev = now;
    }
    assert_eq!(grid.control_at(hex(0, 0)), Some(ControlVector::zero()));
}

#[test]
fn transfer_formula() {
    // (src - dst) * 1 / (2 * n * 100)
    assert_eq!(transfer(375_000_000, 0, 6), 312_500);
    assert_eq!(transfer(100_000_000, 0, 6), 83_333);
    assert_eq!(transfer(100_000_000, 0, 3), 166_666);
    assert_eq!(transfer(1_200, 0, 6), 1);
    assert_eq!(transfer(1_199, 0, 6), 0);
    assert_eq!(transfer(50, 100, 3), 0);
    assert_eq!(transfer(100, 100, 3), 0);
    assert_eq!(transfer(100, 0, 0), 0);
}

#[test]
fn faction_resolution_determinism() {
    let v = ControlVector::new(10, 10, 0);
    for _ in 0..10 {
        assert_eq!(v.max_status(), Faction::A);
    }
    assert_eq!(ControlVector::new(0, 10, 10).max_status(), Faction::B);
    assert_eq!(ControlVector::new(10, 10, 10).max_status(), Faction::A);
    assert_eq!(ControlVector::new(1, 2, 3).max_status(), Faction::Neutral);
    assert_eq!(ControlVector::new(0, 0, 0).max_status(), Faction::A);
}

#[test]
fn grid_membership_by_cube_distance() {
    let grid = HexGrid::new(2);
    assert_eq!(grid.radius(), 2);
    let members = board_coords(2);
    assert_eq!(members.len(), 19);
    for m in &members {
        assert!(grid.contains(*m));
        assert_eq!(grid.control_at(*m), Some(ControlVector::zero()));
        assert_eq!(grid.faction_at(*m), Some(Faction::A));
    }
    assert!(!grid.contains(hex(2, 1)));
    assert!(!grid.contains(hex(-2, -1)));
    assert!(!grid.contains(hex(3, 0)));
    assert_eq!(grid.control_at(hex(2, 2)), None);
    assert_eq!(grid.lookup(hex(2, 2)), None);
    let cell = grid.lookup(hex(1, -2)).unwrap();
    assert_eq!(cell.coord, hex(1, -2));
    assert_eq!(cell.control, ControlVector::zero());
}

#[test]
fn injection_on_and_off_the_board() {
    let mut grid = HexGrid::new(1);
    grid.inject(hex(1, 0), ControlVector::new(0, 7_000, 0));
    assert_eq!(grid.control_at(hex(1, 0)), Some(ControlVector::new(0, 7_000, 0)));
    assert_eq!(grid.faction_at(hex(1, 0)), Some(Faction::B));
    grid.inject(hex(5, 5), a_only(7_000));
    for c in board_coords(1) {
        if c != hex(1, 0) {
            assert_eq!(grid.control_at(c), Some(ControlVector::zero()));
        }
    }
}

#[test]
fn control_clamping_over_many_operations() {
    let mut grid = HexGrid::new(2);
    for i in 0..30 {
        grid.inject(hex(0, 0), ControlVector::new(90_000_000, 60_000_000, 30_000_000));
        grid.inject(hex(1, -1), a_only(400_000_000));
        grid.inject_around(hex(-1, 0), ControlVector::new(0, 0, 250_000_000));
        if i % 2 == 0 {
            grid.tick();
        } else {
            grid.diffuse();
        }
        for c in board_coords(2) {
            let v = grid.control_at(c).unwrap();
            assert!(v.a <= MAX_CONTROL_VALUE);
            assert!(v.b <= MAX_CONTROL_VALUE);
            assert!(v.neutral <= MAX_CONTROL_VALUE);
        }
    }
}

#[test]
fn diffusion_fairness() {
    let centre = hex(0, 0);
    let neighbour = hex(1, 0);
    let mut grid = HexGrid::new(1);
    grid.inject(centre, a_only(100 * CONTROL_UNIT));
    grid.diffuse();
    let cell_a = a_of(&grid, centre);
    let neighbour_a = a_of(&grid, neighbour);
    assert!(neighbour_a > 0);
    assert!(cell_a < 100 * CONTROL_UNIT);
    assert!(cell_a + neighbour_a <= 100 * CONTROL_UNIT);
    assert_eq!(neighbour_a, 83_333);
    assert_eq!(cell_a, 100_000_000 - 6 * 83_333);
}

#[test]
fn end_to_end_radius_one() {
    let centre = hex(0, 0);
    let mut grid = HexGrid::new(1);
    assert_eq!(board_coords(1).len(), 7);
    grid.inject(centre, a_only(500 * CONTROL_UNIT));
    grid.tick();
    // Decay takes 500 to 375; each of the six neighbours, with three
    // neighbours of its own, receives 375 * 1 / (2 * 6 * 100) from the centre.
    let share = 375_000_000 / 1_200;
    assert_eq!(share, 312_500);
    assert_eq!(share * 1_200, 375_000_000);
    for n in centre.neighbors() {
        let v = grid.control_at(n).unwrap();
        assert_eq!(v.a, share);
        assert!(v.a <= MAX_CONTROL_VALUE);
    }
    assert_eq!(a_of(&grid, centre), 375_000_000 - 6 * share);
    assert_eq!(a_of(&grid, centre), 373_125_000);
    assert_eq!(grid.faction_at(centre), Some(Faction::A));
}

#[test]
fn diffusion_between_ring_cells() {
    let mut grid = HexGrid::new(1);
    grid.inject(hex(1, 0), ControlVector::new(0, 60_000_000, 0));
    grid.diffuse();
    // hex(1, 0) has three neighbours: the centre, (1, -1) and (0, 1).
    let share = 60_000_000 / 600;
    assert_eq!(grid.control_at(hex(0, 0)).unwrap().b, share);
    assert_eq!(grid.control_at(hex(1, -1)).unwrap().b, share);
    assert_eq!(grid.control_at(hex(0, 1)).unwrap().b, share);
    assert_eq!(grid.control_at(hex(-1, 0)).unwrap().b, 0);
    assert_eq!(grid.control_at(hex(1, 0)).unwrap().b, 60_000_000 - 3 * share);
}

#[test]
fn control_ray_applies_until_ttl_runs_out() {
    let mut grid = HexGrid::new(2);
    let ray = ControlRay::fire(hex(0, 0), hex(2, 0), a_only(1_000), 2);
    assert_eq!(ray.path, vec![hex(0, 0), hex(1, 0), hex(2, 0)]);
    let off_board = ControlRay::fire(hex(0, 0), hex(0, 4), ControlVector::new(0, 5, 0), 1);
    let spent = ControlRay::fire(hex(-1, 0), hex(-2, 0), ControlVector::zero(), 5);
    assert!(spent.is_spent());
    assert!(!ray.is_spent());

    let alive = run_rays(&mut grid, vec![ray, off_board, spent]);
    assert_eq!(alive.len(), 1);
    assert_eq!(alive[0].ttl, 1);
    assert_eq!(a_of(&grid, hex(1, 0)), 1_000);
    assert_eq!(a_of(&grid, hex(2, 0)), 1_000);
    assert_eq!(grid.control_at(hex(0, 2)).unwrap().b, 5);
    assert_eq!(grid.control_at(hex(0, 0)).unwrap(), ControlVector::new(1_000, 5, 0));

    let alive = run_rays(&mut grid, alive);
    assert!(alive.is_empty());
    assert_eq!(a_of(&grid, hex(2, 0)), 2_000);
    let alive = run_rays(&mut grid, alive);
    assert!(alive.is_empty());
    assert_eq!(a_of(&grid, hex(2, 0)), 2_000);
}

#[test]
fn energy_source_feeds_its_own_hex() {
    let mut grid = HexGrid::new(1);
    let source = EnergySource { position: hex(1, 0), flow_rate: 100 * CONTROL_UNIT };
    assert_eq!(source.to_control(), ControlVector::new(0, 0, 100_000_000));
    source.emit(&mut grid);
    assert_eq!(grid.control_at(hex(1, 0)).unwrap().neutral, 100_000_000);
    assert_eq!(grid.faction_at(hex(1, 0)), Some(Faction::Neutral));
    for c in board_coords(1) {
        if c != hex(1, 0) {
            assert_eq!(grid.control_at(c), Some(ControlVector::zero()));
        }
    }
    for _ in 0..6 {
        source.emit(&mut grid);
    }
    assert_eq!(grid.control_at(hex(1, 0)).unwrap().neutral, MAX_CONTROL_VALUE);

    let off_board = EnergySource { position: hex(4, 0), flow_rate: 100 * CONTROL_UNIT };
    let before = grid.cells();
    off_board.emit(&mut grid);
    assert_eq!(grid.cells(), before);
}

#[test]
fn beam_stops_at_the_edge() {
    let mut grid = HexGrid::new(2);
    grid.inject(hex(0, 0), ControlVector::new(0, 4_000, 0));
    grid.beam(hex(0, 0), HexDirection::E, 3);
    assert_eq!(grid.control_at(hex(1, 0)).unwrap().b, 4_000);
    assert_eq!(grid.control_at(hex(2, 0)).unwrap().b, 4_000);
    assert_eq!(grid.control_at(hex(0, 0)).unwrap().b, 4_000);
    assert_eq!(grid.control_at(hex(-1, 0)).unwrap().b, 0);

    let before = grid.control_at(hex(1, 0));
    grid.beam(hex(7, 7), HexDirection::W, 3);
    assert_eq!(grid.control_at(hex(1, 0)), before);

    grid.beam(hex(0, 0), HexDirection::NW, 1);
    assert_eq!(grid.control_at(hex(0, -1)).unwrap().b, 4_000);
    assert_eq!(grid.control_at(hex(0, -2)).unwrap().b, 0);
}

#[test]
fn structures_occupy_one_hex_each() {
    let mut grid = HexGrid::new(1);
    assert_eq!(grid.structure_at(hex(1, 0)), None);
    assert!(grid.place_structure(hex(1, 0), 42));
    assert_eq!(grid.structure_at(hex(1, 0)), Some(42));
    assert!(!grid.place_structure(hex(1, 0), 7));
    assert_eq!(grid.structure_at(hex(1, 0)), Some(42));
    assert!(!grid.place_structure(hex(3, 0), 7));
    assert_eq!(grid.structure_at(hex(3, 0)), None);
    grid.inject(hex(1, 0), a_only(9_000));
    grid.tick();
    assert_eq!(grid.structure_at(hex(1, 0)), Some(42));
    grid.clear_structure(hex(1, 0));
    assert_eq!(grid.structure_at(hex(1, 0)), None);
    assert!(grid.place_structure(hex(1, 0), 7));
    assert_eq!(grid.structure_at(hex(1, 0)), Some(7));
}

#[test]
fn cells_list_every_hex_once() {
    let mut grid = HexGrid::new(2);
    grid.inject(hex(-1, 2), ControlVector::new(3, 4, 5));
    let cells = grid.cells();
    assert_eq!(cells.len(), 19);
    let coords: Vec<HexCoordinate> = cells.iter().map(|c| c.coord).collect();
    let mut expected = board_coords(2);
    expected.sort_by_key(|h| (h.q, h.r));
    assert_eq!(coords, expected);
    for c in &cells {
        assert_eq!(Some(c.control), grid.control_at(c.coord));
    }
    assert_eq!(HexGrid::new(0).cells().len(), 1);
}
