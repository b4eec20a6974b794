use vivaldi::coordinate::{Coordinate, MIN_HEIGHT};
use vivaldi::model::{
    estimate_rtt, unit_vector_for, Model, ObserveError, UnitVector, INITIAL_ERROR, INITIAL_HEIGHT,
};
use vivaldi::vector::{Dimension3, RandomSource};

/// One second, in raw fixed-point units.
const SECOND: u64 = 1_000_000_000;

fn reciprocal_measurements(
    a: &mut Model<Dimension3>,
    b: &mut Model<Dimension3>,
    n: u32,
    rtt: u64,
    rng: &mut RandomSource,
) {
    for _ in 0..n {
        let cb = *b.get_coordinate();
        a.observe(&cb, rtt, rng).unwrap();
        let ca = *a.get_coordinate();
        b.observe(&ca, rtt, rng).unwrap();
    }
}

fn assert_within(a: &Model<Dimension3>, b: &Model<Dimension3>, true_value: u64, max_diff: f64) {
    let estimated_rtt = estimate_rtt(a.get_coordinate(), b.get_coordinate());

    let estimation_error = true_value as f64 / estimated_rtt as f64;
    let estimation_error = estimation_error.abs();

    println!("true rtt value:\t{}", true_value);
    println!("estimated rtt:\t{}", estimated_rtt);

    assert!(
        estimation_error < (1.0 + max_diff),
        "estimation error {} is above spec",
        estimation_error
    );
    assert!(
        estimation_error > (1.0 - max_diff),
        "estimation error {} is below spec",
        estimation_error
    );
}

/// Asserts to within 11.5%: the paper states the median relative error of
/// RTT estimates is ~11%.
fn assert_within_spec(a: &Model<Dimension3>, b: &Model<Dimension3>, true_value: u64) {
    assert_within(a, b, true_value, 0.115);
}

#[test]
fn unit_vector_to() {
    let from = Dimension3([1_000_000_000, 2_000_000_000, 3_000_000_000]);
    let to = Dimension3([500_000_000, 1_500_000_000, 2_500_000_000]);

    assert_eq!(
        unit_vector_for(from, to),
        Some(UnitVector(Dimension3([577_350_269, 577_350_269, 577_350_269])))
    );
}

#[test]
fn independent_coords() {
    let mut rng = RandomSource::system();
    let mut a = Model::<Dimension3>::new();
    let mut b = Model::<Dimension3>::new();
    let rtt = SECOND;
    reciprocal_measurements(&mut a, &mut b, 10, rtt, &mut rng);

    assert_ne!(
        a.get_coordinate().vector().0[0],
        a.get_coordinate().vector().0[1]
    );
    assert_ne!(
        a.get_coordinate().vector().0[0],
        a.get_coordinate().vector().0[2]
    )
}

#[test]
fn vector_height_values() {
    let mut rng = RandomSource::system();
    let mut dc1_a = Model::<Dimension3>::new();
    let mut dc1_b = Model::<Dimension3>::new();
    let mut dc2_c = Model::<Dimension3>::new();

    let fast_rtt = SECOND;
    let slow_rtt = 5 * SECOND;

    reciprocal_measurements(&mut dc1_a, &mut dc1_b, 1, fast_rtt, &mut rng);
    reciprocal_measurements(&mut dc1_a, &mut dc2_c, 1, slow_rtt, &mut rng);
    reciprocal_measurements(&mut dc1_b, &mut dc2_c, 1, slow_rtt, &mut rng);

    let dc1_a_height = dc1_a.get_coordinate().height();
    let dc1_b_height = dc1_b.get_coordinate().height();
    let dc2_c_height = dc2_c.get_coordinate().height();

    reciprocal_measurements(&mut dc1_a, &mut dc1_b, 1, fast_rtt, &mut rng);
    reciprocal_measurements(&mut dc1_a, &mut dc2_c, 1, slow_rtt, &mut rng);
    reciprocal_measurements(&mut dc1_b, &mut dc2_c, 1, slow_rtt, &mut rng);

    assert_ne!(dc1_a.get_coordinate().height(), dc1_a_height);
    assert_ne!(dc1_b.get_coordinate().height(), dc1_b_height);
    assert_ne!(dc2_c.get_coordinate().height(), dc2_c_height);
}

#[test]
fn constant_rtt_2_node_simulation() {
    let mut rng = RandomSource::system();
    let rtt = SECOND;

    let mut node_a = Model::<Dimension3>::new();
    let mut node_b = Model::<Dimension3>::new();

    reciprocal_measurements(&mut node_a, &mut node_b, 10, rtt, &mut rng);

    assert_within_spec(&node_a, &node_b, rtt);
    assert_within_spec(&node_b, &node_a, rtt);
}

#[test]
fn constant_rtt_2x2_node_simulation() {
    let mut rng = RandomSource::system();
    // Simulates 2 nodes that are close together speaking to a node over a
    // high latency link (think DC to DC).

    let mut dc1_a = Model::<Dimension3>::new();
    let mut dc1_b = Model::<Dimension3>::new();

    let mut dc2_c = Model::<Dimension3>::new();

    let fast_rtt = SECOND;
    let slow_rtt = 5 * SECOND;

    for _ in 0..100 {
        reciprocal_measurements(&mut dc1_a, &mut dc1_b, 1, fast_rtt, &mut rng);
        reciprocal_measurements(&mut dc1_a, &mut dc2_c, 1, slow_rtt, &mut rng);
        reciprocal_measurements(&mut dc1_b, &mut dc2_c, 1, slow_rtt, &mut rng);
    }

    assert_within_spec(&dc1_a, &dc1_b, fast_rtt);
    assert_within_spec(&dc1_a, &dc2_c, slow_rtt);
    assert_within_spec(&dc1_b, &dc1_a, fast_rtt);
    assert_within_spec(&dc2_c, &dc1_a, slow_rtt);
    assert_within_spec(&dc1_b, &dc2_c, slow_rtt);
    assert_within_spec(&dc2_c, &dc1_b, slow_rtt);
}

#[test]
fn constant_rtt_2x2_node_simulation_estimate_never_communicated() {
    let mut rng = RandomSource::system();
    // Simulates 2 nodes that are close together speaking to a node over a
    // high latency link (think DC to DC).
    //
    // dc1_b and dc2_c never communicate, but their RTT can be estimated.

    let mut dc1_a = Model::<Dimension3>::new();
    let mut dc1_b = Model::<Dimension3>::new();

    let mut dc2_c = Model::<Dimension3>::new();

    let fast_rtt = SECOND;
    let slow_rtt = 5 * SECOND;

    for _ in 0..100 {
        reciprocal_measurements(&mut dc1_a, &mut dc1_b, 1, fast_rtt, &mut rng);
        reciprocal_measurements(&mut dc1_a, &mut dc2_c, 1, slow_rtt, &mut rng);
    }

    assert_within_spec(&dc1_a, &dc1_b, fast_rtt);
    assert_within_spec(&dc1_a, &dc2_c, slow_rtt);
    assert_within_spec(&dc1_b, &dc1_a, fast_rtt);
    assert_within_spec(&dc2_c, &dc1_a, slow_rtt);

    // Two nodes that have never communicated can estimate the rtt, but to a
    // lesser accuracy.
    //
    // This verifies the nodes are within ±25%. With more nodes
    // communicating, the estimation would become increasingly accurate.
    assert_within(&dc1_b, &dc2_c, slow_rtt, 0.25);
    assert_within(&dc2_c, &dc1_b, slow_rtt, 0.25);
}

#[test]
fn new_model_initial_coordinate() {
    let model = Model::<Dimension3>::new();
    let c = model.get_coordinate();

    assert_eq!(c.error(), INITIAL_ERROR);
    assert_eq!(c.height(), INITIAL_HEIGHT);
    assert_eq!(*c.vector(), Dimension3([0, 0, 0]));
}

#[test]
fn observe_rejects_zero_rtt() {
    let mut rng = RandomSource::system();
    let mut a = Model::<Dimension3>::new();
    let b = Model::<Dimension3>::new();
    let before = *a.get_coordinate();

    let res = a.observe(&(*b.get_coordinate()), 0, &mut rng);

    assert_eq!(res, Err(ObserveError::ZeroRtt));
    let after = a.get_coordinate();
    assert_eq!(after.error(), before.error());
    assert_eq!(after.height(), before.height());
    assert_eq!(*after.vector(), *before.vector());
}

#[test]
fn estimate_rtt_exact_value() {
    // Distance 3.741657386 plus two height floors of 0.00001 each.
    let a = Coordinate::new(Dimension3([0, 0, 0]), 0, 0);
    let b = Coordinate::new(
        Dimension3([1_000_000_000, 2_000_000_000, 3_000_000_000]),
        0,
        0,
    );

    assert_eq!(estimate_rtt(&a, &b), 3_741_657_386 + 2 * MIN_HEIGHT as u64);
}

#[test]
fn estimate_rtt_saturates_at_representable_bound() {
    // Distance and both heights together exceed the widest representable
    // raw duration, so the estimate saturates instead of wrapping.
    let a = Coordinate::new(Dimension3([i64::MAX, 0, 0]), 0, i64::MAX);
    let b = Coordinate::new(Dimension3([-i64::MAX, 0, 0]), 0, i64::MAX);

    assert_eq!(estimate_rtt(&a, &b), u64::MAX);
}

#[test]
fn height_unchanged_while_positions_coincide() {
    // Both nodes still sit on the origin, so the height term is carried
    // over unchanged even though the position takes a random step.
    let mut rng = RandomSource::system();
    let mut a = Model::<Dimension3>::new();
    let b = Model::<Dimension3>::new();

    a.observe(&(*b.get_coordinate()), SECOND, &mut rng).unwrap();

    assert_eq!(a.get_coordinate().height(), INITIAL_HEIGHT);
}

#[test]
fn estimate_rtt_commutes() {
    let a = Coordinate::new(Dimension3([5_000_000, -2_000_000_000, 7]), 3, -25);
    let b = Coordinate::new(Dimension3([-40, 900_000_000, 1_000]), 0, 2_000_000_000);

    assert_eq!(estimate_rtt(&a, &b), estimate_rtt(&b, &a));

    let c = Coordinate::new(Dimension3([0, 0, 0]), 1, 0);
    assert_eq!(estimate_rtt(&a, &c), estimate_rtt(&c, &a));
    assert_eq!(estimate_rtt(&b, &c), estimate_rtt(&c, &b));
}

#[test]
fn degenerate_direction_reproducible_from_injected_draws() {
    // Two models fed the same prepared draws take exactly the same random
    // step out of the origin: the degenerate-direction path is
    // deterministic under an injected source.
    let draws = vec![300_000_000i64, 400_000_000, 0];
    let mut rng_a = RandomSource::from_draws(draws.clone());
    let mut rng_b = RandomSource::from_draws(draws);

    let mut a = Model::<Dimension3>::new();
    let mut b = Model::<Dimension3>::new();
    let remote = *Model::<Dimension3>::new().get_coordinate();

    a.observe(&remote, SECOND, &mut rng_a).unwrap();
    b.observe(&remote, SECOND, &mut rng_b).unwrap();

    assert_eq!(*a.get_coordinate().vector(), *b.get_coordinate().vector());

    // The drawn direction (0.3, 0.4, 0) normalizes to (0.6, 0.8, 0) and the
    // first step has force 0.1, so the position moves to (0.06, 0.08, 0).
    assert_eq!(
        *a.get_coordinate().vector(),
        Dimension3([60_000_000, 80_000_000, 0])
    );
}

#[test]
fn constant_rtt_error_shrinks_with_more_rounds() {
    // After 100 reciprocal rounds the estimate is at least as close to the
    // true RTT as after 10 rounds.
    let mut rng = RandomSource::system();
    let rtt = SECOND;

    let mut node_a = Model::<Dimension3>::new();
    let mut node_b = Model::<Dimension3>::new();

    reciprocal_measurements(&mut node_a, &mut node_b, 10, rtt, &mut rng);
    let after_10 = estimate_rtt(node_a.get_coordinate(), node_b.get_coordinate());
    let error_10 = (rtt as f64 / after_10 as f64 - 1.0).abs();

    reciprocal_measurements(&mut node_a, &mut node_b, 90, rtt, &mut rng);
    let after_100 = estimate_rtt(node_a.get_coordinate(), node_b.get_coordinate());
    let error_100 = (rtt as f64 / after_100 as f64 - 1.0).abs();

    assert!(
        error_100 <= error_10,
        "error after 100 rounds ({}) exceeds error after 10 rounds ({})",
        error_100,
        error_10
    );
}

#[test]
fn degenerate_draw_windows_are_skipped() {
    // The first window of draws is all zeros, too small to normalize, so
    // the fallback discards it and takes the next window: the result is
    // the same as if only the second window had been supplied.
    let draws = vec![0i64, 0, 0, 300_000_000, 400_000_000, 0];
    let mut rng = RandomSource::from_draws(draws);

    let mut a = Model::<Dimension3>::new();
    let remote = *Model::<Dimension3>::new().get_coordinate();

    a.observe(&remote, SECOND, &mut rng).unwrap();

    assert_eq!(
        *a.get_coordinate().vector(),
        Dimension3([60_000_000, 80_000_000, 0])
    );
}
