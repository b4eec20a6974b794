//! A 3-dimensional vector.

use crate::fixed::{fxdiv_i64, fxmul_i64, isqrt_u128, sat_add_i64, sat_sub_i64};
use crate::vector::{
    magnitude_of, seq_add_scalar, seq_fxdiv, seq_fxmul, seq_sat_add, seq_sat_sub, sum_squares,
    Magnitude, RandomSource, Vector,
};
use vstd::prelude::*;

verus! {

/// A 3 dimensional Euclidean vector.
#[derive(PartialEq, Eq, Debug, Copy, Clone)]
pub struct Dimension3(pub [i64; 3]);

/// Unfolds the sum of squares of a three-component sequence.
proof fn lemma_sum_squares_3(a: Seq<i64>)
    requires
        a.len() == 3,
    ensures
        sum_squares(a) == (a[0] as int) * (a[0] as int) + (a[1] as int) * (a[1] as int) + (
        a[2] as int) * (a[2] as int),
{
    let t = a.drop_first();
    let u = t.drop_first();
    assert(sum_squares(a) == (a[0] as int) * (a[0] as int) + sum_squares(t));
    assert(sum_squares(t) == (t[0] as int) * (t[0] as int) + sum_squares(u));
    assert(sum_squares(u) == (u[0] as int) * (u[0] as int) + sum_squares(u.drop_first()));
    assert(sum_squares(u.drop_first()) == 0);
}

impl Default for Dimension3 {
    /// The origin.
    fn default() -> (r: Self)
        ensures
            r == (Dimension3([0i64, 0i64, 0i64])),
    {
        Dimension3([0, 0, 0])
    }
}

impl Vector for Dimension3 {
    open spec fn vals(&self) -> Seq<i64> {
        self.0@
    }

    open spec fn dim() -> nat {
        3
    }

    proof fn lemma_dim(&self)
    {
    }

    fn origin() -> (r: Self) {
        Dimension3([0, 0, 0])
    }

    fn add(self, other: Self) -> (r: Self) {
        let r = Dimension3(
            [
                sat_add_i64(self.0[0], other.0[0]),
                sat_add_i64(self.0[1], other.0[1]),
                sat_add_i64(self.0[2], other.0[2]),
            ],
        );
        proof {
            assert(r.vals() =~= seq_sat_add(self.vals(), other.vals()));
        }
        r
    }

    fn add_scalar(self, s: i64) -> (r: Self) {
        let r = Dimension3(
            [
                sat_add_i64(self.0[0], s),
                sat_add_i64(self.0[1], s),
                sat_add_i64(self.0[2], s),
            ],
        );
        proof {
            assert(r.vals() =~= seq_add_scalar(self.vals(), s as int));
        }
        r
    }

    fn sub(self, other: Self) -> (r: Self) {
        let r = Dimension3(
            [
                sat_sub_i64(self.0[0], other.0[0]),
                sat_sub_i64(self.0[1], other.0[1]),
                sat_sub_i64(self.0[2], other.0[2]),
            ],
        );
        proof {
            assert(r.vals() =~= seq_sat_sub(self.vals(), other.vals()));
        }
        r
    }

    fn mul(self, s: i64) -> (r: Self) {
        let r = Dimension3(
            [
                fxmul_i64(self.0[0], s),
                fxmul_i64(self.0[1], s),
                fxmul_i64(self.0[2], s),
            ],
        );
        proof {
            assert(r.vals() =~= seq_fxmul(self.vals(), s as int));
        }
        r
    }

    fn div(self, s: u64) -> (r: Self) {
        let r = Dimension3(
            [
                fxdiv_i64(self.0[0], s),
                fxdiv_i64(self.0[1], s),
                fxdiv_i64(self.0[2], s),
            ],
        );
        proof {
            assert(r.vals() =~= seq_fxdiv(self.vals(), s as int));
        }
        r
    }

    fn magnitude(&self) -> (r: Magnitude) {
        let a0 = self.0[0] as i128;
        let a1 = self.0[1] as i128;
        let a2 = self.0[2] as i128;
        proof {
            assert(0 <= (a0 as int) * (a0 as int) <= i128::MAX as int) by (nonlinear_arith)
                requires
                    i64::MIN <= a0 <= i64::MAX,
            ;
            assert(0 <= (a1 as int) * (a1 as int) <= i128::MAX as int) by (nonlinear_arith)
                requires
                    i64::MIN <= a1 <= i64::MAX,
            ;
            assert(0 <= (a2 as int) * (a2 as int) <= i128::MAX as int) by (nonlinear_arith)
                requires
                    i64::MIN <= a2 <= i64::MAX,
            ;
            assert((a0 as int) * (a0 as int) + (a1 as int) * (a1 as int) + (a2 as int) * (
            a2 as int) <= u128::MAX as int) by (nonlinear_arith)
                requires
                    i64::MIN <= a0 <= i64::MAX,
                    i64::MIN <= a1 <= i64::MAX,
                    i64::MIN <= a2 <= i64::MAX,
            ;
        }
        let s: u128 = (a0 * a0) as u128 + (a1 * a1) as u128 + (a2 * a2) as u128;
        let m = isqrt_u128(s);
        proof {
            lemma_sum_squares_3(self.vals());
        }
        Magnitude(m)
    }

    fn random(rng: &mut RandomSource) -> (r: Self) {
        let ghost s0 = *rng;
        let c0 = rng.next_unit();
        let ghost s1 = *rng;
        let c1 = rng.next_unit();
        let ghost s2 = *rng;
        let c2 = rng.next_unit();
        let r = Dimension3([c0, c1, c2]);
        proof {
            if s0 is Cycle {
                assert(c1 == s0.draw_ahead(1));
                assert(s2.draw_ahead(0) == s0.draw_ahead(2));
                assert(c2 == s0.draw_ahead(2));
                assert forall|k: int|
                    (#[trigger] rng.draw_ahead(k)) == s0.draw_ahead(k + 3) by {
                    assert(rng.draw_ahead(k) == s2.draw_ahead(k + 1));
                    assert(s2.draw_ahead(k + 1) == s1.draw_ahead(k + 2));
                }
            }
        }
        r
    }
}

} // verus!
