use whoot::axial::{Axial, PlanarPos, SCALE_X_MILLI, SCALE_Y_MILLI};

fn round_trip(a: Axial) -> Axial {
    Axial::get_axial(a.get_cartesian())
}

#[test]
fn projection_of_origin_is_origin() {
    let p = Axial::new(0, 0).get_cartesian();
    assert_eq!(p.x, 0);
    assert_eq!(p.y, 0);
}

#[test]
fn projection_exact_values() {
    // x follows r alone, y follows 2*q + r alone.
    let p = Axial::new(1, 0).get_cartesian();
    assert_eq!(p.x, 0);
    assert_eq!(p.y, 2 * SCALE_Y_MILLI);

    let p = Axial::new(0, 1).get_cartesian();
    assert_eq!(p.x, SCALE_X_MILLI);
    assert_eq!(p.y, SCALE_Y_MILLI);

    let p = Axial::new(3, -2).get_cartesian();
    assert_eq!(p.x, -2 * SCALE_X_MILLI);
    assert_eq!(p.y, 4 * SCALE_Y_MILLI);
}

#[test]
fn round_trip_projection_small_grid() {
    for q in -10..=10 {
        for r in -10..=10 {
            let a = Axial::new(q, r);
            assert_eq!(round_trip(a), a);
        }
    }
}

#[test]
fn round_trip_projection_large_coordinates() {
    for &(q, r) in &[
        (1_000_000, -1_000_000),
        (-2_000_000_000, 2_000_000_000),
        (2_147_483_645, 2_147_483_645),
        (-2_147_483_646, -2_147_483_646),
        (0, 2_147_483_647),
    ] {
        let a = Axial::new(q, r);
        assert_eq!(round_trip(a), a);
    }
}

#[test]
fn from_planar_rounds_to_nearest() {
    // Just under half a step stays at 0; exactly half a step rounds up.
    let below = Axial::get_axial(PlanarPos { x: SCALE_X_MILLI / 2 - 1, y: 0 });
    assert_eq!(below.r, 0);
    let half = Axial::get_axial(PlanarPos { x: SCALE_X_MILLI / 2, y: 0 });
    assert_eq!(half.r, 1);
    // A point slightly off a lattice position still recovers it.
    let p = Axial::new(4, -3).get_cartesian();
    let nudged = PlanarPos { x: p.x + 700, y: p.y - 700 };
    assert_eq!(Axial::get_axial(nudged), Axial::new(4, -3));
}

#[test]
fn axial_ordering_is_lexicographic() {
    assert!(Axial::new(0, 100) < Axial::new(1, -100));
    assert!(Axial::new(1, 2) < Axial::new(1, 3));
    assert!(!(Axial::new(1, 2) < Axial::new(1, 2)));
    assert!(Axial::new(2, 0) > Axial::new(1, 9));
    assert_eq!(
        Axial::new(5, 5).partial_cmp(&Axial::new(5, 5)),
        Some(std::cmp::Ordering::Equal)
    );
}

#[test]
fn axial_add_is_componentwise() {
    let s = Axial::new(2, 3).add(&Axial::new(-1, 1));
    assert_eq!(s, Axial::new(1, 4));
}
