//! The per-node Vivaldi model and its update rule.

use crate::coordinate::Coordinate;
use crate::fixed::{
    abs_int, lemma_div_le_dividend, lemma_div_upper, lemma_sqrt_floor_bounds, sat64, sat_to_i64,
    sat_to_u64, sat_u64, tdiv, tdiv_i128, SCALE,
};
use crate::vector::{
    lemma_magnitude_opposite, lemma_sum_squares_nonneg, magnitude_of, seq_fxdiv, seq_fxmul,
    seq_sat_add, seq_sat_sub, RandomSource, Vector,
};
use vstd::arithmetic::div_mod::lemma_div_is_ordered;
use vstd::prelude::*;

verus! {

/// Differences whose magnitude lies below this many raw units (10^-8 of a
/// unit) count as numerically zero.
pub const NEAR_ZERO: u64 = 10;

/// The Ce algorithm value (0.25), in raw fixed-point units.
pub const ERROR_LIMIT: i64 = 250_000_000;

/// The error estimate a fresh model starts from (2.0), in raw units.
pub const INITIAL_ERROR: i64 = 2_000_000_000;

/// The stored height a fresh model starts from (0.1), in raw units.
pub const INITIAL_HEIGHT: i64 = 100_000_000;

/// UnitVector contains a vector that is intended to have a magnitude of 1.
#[derive(PartialEq, Eq, Debug)]
pub struct UnitVector<V: Vector>(pub V);

/// The estimated round-trip time of two coordinates: the Euclidean distance
/// of their positions plus both heights, read through the height floor.
pub open spec fn spec_estimate_rtt<V: Vector>(a: Coordinate<V>, b: Coordinate<V>) -> int {
    sat_u64(
        magnitude_of(seq_sat_sub(a.spec_vector().vals(), b.spec_vector().vals()))
            + a.spec_height() + b.spec_height(),
    )
}

/// Returns an estimate round-trip time given two coordinates, in raw
/// fixed-point units (nanoseconds when a unit is a second).
///
/// If `a` and `b` have communicated recently, the local node can estimate the
/// latency between them with a high degree of accuracy.
///
/// If the nodes represented by `a` and `b` have never communicated the
/// estimation will still be fairly accurate given a sufficiently mature,
/// dense model.
pub fn estimate_rtt<V: Vector>(a: &Coordinate<V>, b: &Coordinate<V>) -> (r: u64)
    ensures
        r as int == spec_estimate_rtt(*a, *b),
        r >= 2 * (crate::coordinate::MIN_HEIGHT as u64),
{
    let av: V = *a.vector();
    let bv: V = *b.vector();
    let diff = av.sub(bv);
    let m = diff.magnitude();
    let ha = a.height();
    let hb = b.height();
    proof {
        lemma_sum_squares_nonneg(diff.vals());
        lemma_sqrt_floor_bounds(crate::vector::sum_squares(diff.vals()));
    }
    let sum: u128 = m.0 as u128 + ha as u128 + hb as u128;
    sat_to_u64(sum)
}

/// Law: the estimated round-trip time between two coordinates is the same in
/// both directions; swapping the arguments never changes the estimate.
pub proof fn lemma_estimate_rtt_commutative<V: Vector>(a: Coordinate<V>, b: Coordinate<V>)
    ensures
        spec_estimate_rtt(a, b) == spec_estimate_rtt(b, a),
{
    let va = a.spec_vector().vals();
    let vb = b.spec_vector().vals();
    a.spec_vector().lemma_dim();
    b.spec_vector().lemma_dim();
    let d1 = seq_sat_sub(va, vb);
    let d2 = seq_sat_sub(vb, va);
    assert forall|i: int| 0 <= i < d1.len() implies (#[trigger] d2[i]) as int == -(d1[i] as int) by {
        assert(sat64(vb[i] - va[i]) == -sat64(va[i] - vb[i]));
    }
    lemma_magnitude_opposite(d1, d2);
}

/// Returns the unit vector pointing from `to` toward `from`, or `None` if
/// the difference is too close to zero to normalize accurately.
pub fn unit_vector_for<V: Vector>(from: V, to: V) -> (r: Option<UnitVector<V>>)
    ensures
        ({
            let d = seq_sat_sub(from.vals(), to.vals());
            let dm = magnitude_of(d);
            &&& (r is None <==> dm < NEAR_ZERO)
            &&& (r matches Some(u) ==> u.0.vals() == seq_fxdiv(d, dm))
        }),
{
    let diff = from.sub(to);
    let m = diff.magnitude();
    proof {
        lemma_sum_squares_nonneg(diff.vals());
        lemma_sqrt_floor_bounds(crate::vector::sum_squares(diff.vals()));
    }
    if m.0 < NEAR_ZERO {
        return None;
    }
    Some(UnitVector(diff.div(m.0)))
}

/// A vector the fallback direction may be normalized from: every component
/// in `[0, 1]`, and a magnitude large enough to normalize.
pub open spec fn random_direction_candidate<V: Vector>(v: V) -> bool {
    &&& forall|i: int| 0 <= i < v.vals().len() ==> 0 <= (#[trigger] v.vals()[i]) <= SCALE
    &&& magnitude_of(v.vals()) > NEAR_ZERO
}

/// The number of random draws tried before the degenerate-direction fallback
/// gives up on randomness and takes the diagonal direction instead.
pub const RANDOM_RETRIES: u64 = 64;

/// The components a cycling source will hand out as its `t`-th vector of
/// dimension `V::dim()`: the window of draws `t` vectors ahead.
pub open spec fn cycle_window<V: Vector>(rng: RandomSource, t: int) -> Seq<i64> {
    Seq::new(V::dim(), |i: int| rng.draw_ahead(t * (V::dim() as int) + i))
}

/// The diagonal direction the fallback takes when every retry degenerates:
/// every component one unit.
pub open spec fn diagonal_vector<V: Vector>() -> Seq<i64> {
    Seq::new(V::dim(), |i: int| SCALE)
}

/// The outcome of the degenerate-direction fallback on a cycling source:
/// the first `t` windows of the source's draws were too small to
/// normalize; if a usable window was found within the retry bound, the
/// direction `u` is its normalization, else the normalized diagonal; the
/// cursor has moved past every consumed draw.
pub open spec fn fallback_outcome<V: Vector>(
    pre: RandomSource,
    post: RandomSource,
    u: Seq<i64>,
    t: int,
) -> bool {
    let n = V::dim() as int;
    &&& 0 <= t <= RANDOM_RETRIES
    &&& forall|s: int|
        0 <= s < t ==> magnitude_of(#[trigger] cycle_window::<V>(pre, s)) <= NEAR_ZERO
    &&& if t < RANDOM_RETRIES {
        let w = cycle_window::<V>(pre, t);
        &&& magnitude_of(w) > NEAR_ZERO
        &&& u == seq_fxdiv(w, magnitude_of(w))
        &&& forall|j: int| (#[trigger] post.draw_ahead(j)) == pre.draw_ahead(j + (t + 1) * n)
    } else {
        let w = diagonal_vector::<V>();
        &&& u == seq_fxdiv(w, magnitude_of(w))
        &&& forall|j: int| (#[trigger] post.draw_ahead(j)) == pre.draw_ahead(j + t * n)
    }
}

/// Returns a random unit vector: a direction drawn from the injected
/// source, normalized.
///
/// A draw whose magnitude is too close to zero to normalize is retried; in
/// the (astronomically unlikely) event that every retry degenerates, the
/// diagonal direction is used instead. On a prepared cycle the direction is
/// pinned exactly: the first window of draws that can be normalized, within
/// the retry bound, decides it.
fn new_random_unit_vec<V: Vector>(rng: &mut RandomSource) -> (r: UnitVector<V>)
    requires
        old(rng).wf(),
    ensures
        final(rng).wf(),
        old(rng).same_source(*final(rng)),
        *old(rng) is System ==> *final(rng) == *old(rng),
        exists|v: V|
            random_direction_candidate(v) && r.0.vals() == seq_fxdiv(
                v.vals(),
                magnitude_of(v.vals()),
            ),
        *old(rng) is Cycle ==> exists|t: int|
            #[trigger] fallback_outcome::<V>(*old(rng), *final(rng), r.0.vals(), t),
{
    let ghost gn = V::dim() as int;
    let mut attempts: u64 = 0;
    while attempts < RANDOM_RETRIES
        invariant
            rng.wf(),
            old(rng).same_source(*rng),
            *old(rng) is System ==> *rng == *old(rng),
            attempts <= RANDOM_RETRIES,
            gn == V::dim() as int,
            *old(rng) is Cycle ==> {
                &&& forall|s: int|
                    0 <= s < attempts ==> magnitude_of(
                        #[trigger] cycle_window::<V>(*old(rng), s),
                    ) <= NEAR_ZERO
                &&& forall|j: int|
                    (#[trigger] rng.draw_ahead(j)) == old(rng).draw_ahead(
                        j + (attempts as int) * gn,
                    )
            },
        decreases RANDOM_RETRIES - attempts,
    {
        let ghost pre = *rng;
        let vec = V::random(rng);
        let mag = vec.magnitude();
        proof {
            vec.lemma_dim();
            lemma_sum_squares_nonneg(vec.vals());
            lemma_sqrt_floor_bounds(crate::vector::sum_squares(vec.vals()));
            if (*old(rng)) is Cycle {
                assert forall|i: int| 0 <= i < gn implies vec.vals()[i] == old(rng).draw_ahead(
                    (attempts as int) * gn + i,
                ) by {
                    assert(vec.vals()[i] == pre.draw_ahead(i));
                }
                assert(vec.vals() =~= cycle_window::<V>(*old(rng), attempts as int));
                assert forall|j: int|
                    (#[trigger] rng.draw_ahead(j)) == old(rng).draw_ahead(
                        j + ((attempts as int) + 1) * gn,
                    ) by {
                    assert(rng.draw_ahead(j) == pre.draw_ahead(j + gn));
                    assert(j + gn + (attempts as int) * gn == j + ((attempts as int) + 1) * gn)
                        by (nonlinear_arith);
                }
            }
        }
        if mag.0 > NEAR_ZERO {
            let u = vec.div(mag.0);
            proof {
                assert(random_direction_candidate(vec));
                assert(u.vals() == seq_fxdiv(vec.vals(), magnitude_of(vec.vals())));
                if (*old(rng)) is Cycle {
                    assert(fallback_outcome::<V>(*old(rng), *rng, u.vals(), attempts as int));
                    assert(exists|t: int|
                        #[trigger] fallback_outcome::<V>(*old(rng), *rng, u.vals(), t));
                }
            }
            return UnitVector(u);
        }
        attempts = attempts + 1;
    }
    let vec = V::origin().add_scalar(SCALE);
    proof {
        vec.lemma_dim();
        let v = vec.vals();
        assert(v[0] == SCALE);
        lemma_sum_squares_nonneg(v.drop_first());
        assert(crate::vector::sum_squares(v) == (v[0] as int) * (v[0] as int)
            + crate::vector::sum_squares(v.drop_first()));
        assert((SCALE as int) * (SCALE as int) <= crate::vector::sum_squares(v))
            by (nonlinear_arith)
            requires
                (v[0] as int) == SCALE as int,
                crate::vector::sum_squares(v) >= (v[0] as int) * (v[0] as int),
        ;
        crate::fixed::lemma_square_le_sqrt(SCALE as int, crate::vector::sum_squares(v));
        lemma_sum_squares_nonneg(v);
        lemma_sqrt_floor_bounds(crate::vector::sum_squares(v));
    }
    let mag = vec.magnitude();
    let u = vec.div(mag.0);
    proof {
        assert(random_direction_candidate(vec));
        assert(vec.vals() =~= diagonal_vector::<V>());
        assert(u.vals() == seq_fxdiv(vec.vals(), magnitude_of(vec.vals())));
        if (*old(rng)) is Cycle {
            assert(fallback_outcome::<V>(
                *old(rng),
                *rng,
                u.vals(),
                RANDOM_RETRIES as int,
            ));
            assert(exists|t: int| #[trigger] fallback_outcome::<V>(*old(rng), *rng, u.vals(), t));
        }
    }
    UnitVector(u)
}

/// The sample weight w = ei/(ei + ej): the share of trust given to the
/// local error estimate against the remote one, in raw units.
pub open spec fn spec_weight(ei: int, ej: int) -> int {
    (ei * (SCALE as int)) / (ei + ej)
}

/// The adaptive timestep of a sample: the Ce constant times the sample
/// weight, in raw units.
pub open spec fn spec_delta(ei: int, ej: int) -> int {
    ((ERROR_LIMIT as int) * spec_weight(ei, ej)) / (SCALE as int)
}

/// The relative error of a sample: |dist − rtt| / rtt, in raw units.
pub open spec fn spec_rel_error(dist: int, rtt: int) -> int {
    (abs_int(dist - rtt) * (SCALE as int)) / rtt
}

/// The stored error estimate is kept within [1, i64::MAX].
pub open spec fn clamp_error(x: int) -> int {
    if x < 1 {
        1
    } else if x > i64::MAX {
        i64::MAX as int
    } else {
        x
    }
}

/// The updated error estimate: the moving average es·δ + ei·(1 − δ),
/// clamped into the representable positive range.
pub open spec fn spec_new_error(ei: int, es: int, delta: int) -> int {
    clamp_error((es * delta + ei * ((SCALE as int) - delta)) / (SCALE as int))
}

/// The weighted force F = δ·(rtt − dist) of a sample, in raw units: positive
/// when the estimate fell short of the measurement.
pub open spec fn spec_force(delta: int, rtt: int, dist: int) -> int {
    tdiv(delta * (rtt - dist), SCALE as int)
}

/// The updated stored height: (hi + hj)·F/dm + hi, saturated.
pub open spec fn spec_new_height(hi: int, hj: int, force: int, dm: int) -> int {
    sat64(tdiv((hi + hj) * force, dm) + hi)
}

/// The updated position: x + u·F, componentwise and saturating.
pub open spec fn spec_new_position(x: Seq<i64>, u: Seq<i64>, force: int) -> Seq<i64> {
    seq_sat_add(x, seq_fxmul(u, force))
}

/// The error observe reports for a sample it must reject.
#[derive(PartialEq, Eq, Debug, Clone, Copy)]
pub enum ObserveError {
    /// The measured round-trip time was zero, so the relative error of the
    /// sample is undefined.
    ZeroRtt,
}

/// A Vivaldi latency model generic over N dimensional vectors.
///
/// A single Model should be instantiated for each distinct network of nodes
/// the caller participates in.
///
/// Messages exchanged between nodes in the network should include the current
/// model coordinate, and the model should be updated with the measured
/// round-trip time by calling [`Model::observe`].
#[derive(Debug)]
pub struct Model<V: Vector> {
    coordinate: Coordinate<V>,
}

impl<V: Vector> Model<V> {
    /// The model's current coordinate.
    pub closed spec fn spec_coordinate(&self) -> Coordinate<V> {
        self.coordinate
    }

    /// A model is well formed when its error estimate is strictly positive.
    pub open spec fn wf(&self) -> bool {
        self.spec_coordinate().spec_error() >= 1
    }

    /// New initialises a new Vivaldi model: the origin position, an error
    /// estimate of 2.0 and a height of 0.1.
    pub fn new() -> (r: Model<V>)
        ensures
            r.wf(),
            r.spec_coordinate().spec_error() == INITIAL_ERROR,
            r.spec_coordinate().spec_stored_height() == INITIAL_HEIGHT,
            forall|i: int|
                0 <= i < r.spec_coordinate().spec_vector().vals().len() ==> (
                #[trigger] r.spec_coordinate().spec_vector().vals()[i]) == 0i64,
    {
        Model { coordinate: Coordinate::new(V::origin(), INITIAL_ERROR, INITIAL_HEIGHT) }
    }

    /// Observe updates the positional coordinate of the local node.
    ///
    /// This method should be called with the coordinate of the remote node
    /// and the network round-trip time measured by the caller, in raw
    /// fixed-point units (nanoseconds when a unit is a second). A zero
    /// round-trip time is rejected and the model left unchanged: the
    /// relative error of such a sample is undefined.
    ///
    /// The injected randomness source is consumed only when the two
    /// positions (numerically) coincide, to break the degeneracy with a
    /// random direction; otherwise it is left untouched.
    pub fn observe(
        &mut self,
        coord: &Coordinate<V>,
        rtt: u64,
        rng: &mut RandomSource,
    ) -> (res: Result<(), ObserveError>)
        requires
            old(self).wf(),
            coord.wf(),
            old(rng).wf(),
        ensures
            final(self).wf(),
            final(rng).wf(),
            old(rng).same_source(*final(rng)),
            *old(rng) is System ==> *final(rng) == *old(rng),
            res is Err <==> rtt == 0,
            rtt == 0 ==> *final(self) == *old(self) && *final(rng) == *old(rng),
            rtt != 0 ==> ({
                let lc = old(self).spec_coordinate();
                let nc = final(self).spec_coordinate();
                let ei = lc.spec_error() as int;
                let ej = coord.spec_error() as int;
                let delta = spec_delta(ei, ej);
                let d = seq_sat_sub(lc.spec_vector().vals(), coord.spec_vector().vals());
                let dm = magnitude_of(d);
                let dist = spec_estimate_rtt(lc, *coord);
                let es = spec_rel_error(dist, rtt as int);
                let f = spec_force(delta, rtt as int, dist);
                &&& nc.spec_error() == spec_new_error(ei, es, delta)
                &&& (dm > NEAR_ZERO ==> nc.spec_stored_height() == spec_new_height(
                    lc.spec_height() as int,
                    coord.spec_height() as int,
                    f,
                    dm,
                ))
                &&& (dm <= NEAR_ZERO ==> nc.spec_stored_height() == lc.spec_stored_height())
                &&& (dm >= NEAR_ZERO ==> nc.spec_vector().vals() == spec_new_position(
                    lc.spec_vector().vals(),
                    seq_fxdiv(d, dm),
                    f,
                ))
                &&& (dm < NEAR_ZERO ==> exists|v: V|
                    random_direction_candidate(v) && nc.spec_vector().vals()
                        == spec_new_position(
                        lc.spec_vector().vals(),
                        seq_fxdiv(v.vals(), magnitude_of(v.vals())),
                        f,
                    ))
                &&& (dm < NEAR_ZERO && *old(rng) is Cycle ==> exists|t: int, u: Seq<i64>|
                    #[trigger] fallback_outcome::<V>(*old(rng), *final(rng), u, t)
                        && nc.spec_vector().vals() == spec_new_position(
                        lc.spec_vector().vals(),
                        u,
                        f,
                    ))
                &&& (dm >= NEAR_ZERO ==> *final(rng) == *old(rng))
            }),
    {
        if rtt == 0 {
            return Err(ObserveError::ZeroRtt);
        }
        let local: Coordinate<V> = self.coordinate;
        let ei: i64 = local.error();
        let ej: i64 = coord.error();

        // Sample weight balances local and remote error
        //
        //     w = ei/(ei + ej)
        proof {
            assert((ei as int) * (SCALE as int) <= u128::MAX as int) by (nonlinear_arith)
                requires
                    0 <= ei <= i64::MAX,
            ;
        }
        let esum: u128 = ei as u128 + ej as u128;
        let w: u128 = (ei as u128) * (SCALE as u128) / esum;
        proof {
            lemma_div_upper((ei as int) * (SCALE as int), esum as int, SCALE as int);
            assert((ei as int) * (SCALE as int) <= (esum as int) * (SCALE as int))
                by (nonlinear_arith)
                requires
                    0 <= ei <= esum,
            ;
        }

        // Adaptive timestep
        //
        //     δ = ce × w
        let delta: u128 = (ERROR_LIMIT as u128) * w / (SCALE as u128);
        proof {
            lemma_div_upper(
                (ERROR_LIMIT as int) * (w as int),
                SCALE as int,
                ERROR_LIMIT as int,
            );
            assert((ERROR_LIMIT as int) * (w as int) <= (SCALE as int) * (ERROR_LIMIT as int))
                by (nonlinear_arith)
                requires
                    0 <= w <= SCALE,
            ;
        }

        // Positional difference
        //
        //     d = xi − xj
        let lv: V = *local.vector();
        let rv: V = *coord.vector();
        let diff = lv.sub(rv);
        let diff_mag = diff.magnitude();

        // Estimated distance, heights included
        let dist: u64 = estimate_rtt(&local, coord);

        // Relative error of this sample
        //
        //     es = | dist − rtt | / rtt
        let ad: u64 = if dist >= rtt {
            dist - rtt
        } else {
            rtt - dist
        };
        proof {
            assert((ad as int) * (SCALE as int) <= u128::MAX as int) by (nonlinear_arith)
                requires
                    0 <= ad <= u64::MAX,
            ;
        }
        let es: u128 = (ad as u128) * (SCALE as u128) / (rtt as u128);

        // Update weighted moving average of local error
        //
        //     ei = es × ce × w + ei × (1 − ce × w)
        proof {
            lemma_div_le_dividend((ad as int) * (SCALE as int), rtt as int);
            assert((es as int) * (delta as int) <= (u64::MAX as int) * (SCALE as int) * (
            ERROR_LIMIT as int)) by (nonlinear_arith)
                requires
                    0 <= es <= (u64::MAX as int) * (SCALE as int),
                    0 <= delta <= ERROR_LIMIT,
            ;
            assert((ei as int) * ((SCALE as int) - (delta as int)) <= (i64::MAX as int) * (
            SCALE as int)) by (nonlinear_arith)
                requires
                    0 <= ei <= i64::MAX,
                    0 <= delta <= SCALE,
            ;
        }
        let avg: u128 = es * delta + (ei as u128) * ((SCALE as u128) - delta);
        let eraw: u128 = avg / (SCALE as u128);
        let new_error: i64 = if eraw < 1 {
            1
        } else if eraw > i64::MAX as u128 {
            i64::MAX
        } else {
            eraw as i64
        };

        // Weighted force
        //
        //     F = δ × ( rtt − dist )
        proof {
            assert((delta as int) * (ad as int) <= (ERROR_LIMIT as int) * (u64::MAX as int))
                by (nonlinear_arith)
                requires
                    0 <= delta <= ERROR_LIMIT,
                    0 <= ad <= u64::MAX,
            ;
            lemma_div_is_ordered(
                (delta as int) * (ad as int),
                (ERROR_LIMIT as int) * (u64::MAX as int),
                SCALE as int,
            );
        }
        let fmag: u128 = delta * (ad as u128) / (SCALE as u128);
        let force: i64 = if rtt >= dist {
            fmag as i64
        } else {
            -(fmag as i64)
        };
        proof {
            if rtt >= dist {
                assert((delta as int) * (rtt - dist) == (delta as int) * (ad as int))
                    by (nonlinear_arith)
                    requires
                        ad == rtt - dist,
                ;
            } else {
                assert((delta as int) * (rtt - dist) == -((delta as int) * (ad as int)))
                    by (nonlinear_arith)
                    requires
                        ad == dist - rtt,
                ;
            }
            assert(force as int == spec_force(delta as int, rtt as int, dist as int));
        }

        // Unit direction u(xi − xj), or a random direction when the nodes
        // coincide
        let unit: UnitVector<V> = match unit_vector_for(lv, rv) {
            Some(u) => u,
            None => new_random_unit_vec(rng),
        };

        // New height
        //
        //     (hi + hj) × F / dm + hi
        let new_height: i64;
        let hi = local.height();
        let hj = coord.height();
        if diff_mag.0 > NEAR_ZERO {
            let hsum: i128 = hi as i128 + hj as i128;
            proof {
                assert(abs_int((hsum as int) * (force as int)) <= 2 * (i64::MAX as int) * (
                i64::MAX as int)) by (nonlinear_arith)
                    requires
                        0 <= hsum <= 2 * (i64::MAX as int),
                        -(i64::MAX as int) <= force <= i64::MAX as int,
                ;
            }
            let prod: i128 = hsum * (force as i128);
            let q: i128 = tdiv_i128(prod, diff_mag.0 as i128);
            proof {
                crate::fixed::lemma_tdiv_bound(prod as int, diff_mag.0 as int, abs_int(prod as int));
                lemma_div_le_dividend(abs_int(prod as int), diff_mag.0 as int);
            }
            new_height = sat_to_i64(q + hi as i128);
        } else {
            new_height = local.stored_height();
        }

        // Update the local coordinate
        //
        //     xi = xi + δ × ( rtt − dist ) × u(xi − xj)
        let newvec = lv.add(unit.0.mul(force));
        self.coordinate = Coordinate::new(newvec, new_error, new_height);
        proof {
            let d = seq_sat_sub(lv.vals(), rv.vals());
            let dm = magnitude_of(d);
            if dm < NEAR_ZERO {
                let gv = choose|v: V|
                    random_direction_candidate(v) && unit.0.vals() == seq_fxdiv(
                        v.vals(),
                        magnitude_of(v.vals()),
                    );
                assert(random_direction_candidate(gv) && self.coordinate.spec_vector().vals()
                    == spec_new_position(
                    lv.vals(),
                    seq_fxdiv(gv.vals(), magnitude_of(gv.vals())),
                    force as int,
                ));
                if (*old(rng)) is Cycle {
                    let gt = choose|t: int|
                        #[trigger] fallback_outcome::<V>(*old(rng), *rng, unit.0.vals(), t);
                    assert(fallback_outcome::<V>(*old(rng), *rng, unit.0.vals(), gt)
                        && self.coordinate.spec_vector().vals() == spec_new_position(
                        lv.vals(),
                        unit.0.vals(),
                        force as int,
                    ));
                }
            }
        }
        Ok(())
    }

    /// Returns the current positional coordinate of the local node.
    pub fn get_coordinate(&self) -> (r: &Coordinate<V>)
        ensures
            *r == self.spec_coordinate(),
    {
        &self.coordinate
    }
}

} // verus!
