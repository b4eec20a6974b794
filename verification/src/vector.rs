//! Points in an N-dimensional vector space.
//!
//! The [`Vector`] trait is the capability contract the model operates
//! through: componentwise arithmetic, Euclidean magnitude and a random
//! direction source. Components are fixed-point scalars (see
//! [`crate::fixed`]); all componentwise operations saturate.

use crate::fixed::{fxdiv, fxmul, sat64, sqrt_floor, SCALE};
use vstd::arithmetic::div_mod::{
    lemma_add_mod_noop, lemma_mod_self_0, lemma_mod_twice, lemma_small_mod,
};
use vstd::prelude::*;

mod dimension_2;

pub use dimension_2::Dimension2;

mod dimension_3;

pub use dimension_3::Dimension3;

verus! {

/// Componentwise saturating sum.
pub open spec fn seq_sat_add(a: Seq<i64>, b: Seq<i64>) -> Seq<i64> {
    Seq::new(a.len(), |i: int| sat64(a[i] + b[i]) as i64)
}

/// Componentwise saturating difference.
pub open spec fn seq_sat_sub(a: Seq<i64>, b: Seq<i64>) -> Seq<i64> {
    Seq::new(a.len(), |i: int| sat64(a[i] - b[i]) as i64)
}

/// The scalar added to every component, saturating.
pub open spec fn seq_add_scalar(a: Seq<i64>, s: int) -> Seq<i64> {
    Seq::new(a.len(), |i: int| sat64(a[i] + s) as i64)
}

/// Every component scaled by the fixed-point factor `s`, saturating.
pub open spec fn seq_fxmul(a: Seq<i64>, s: int) -> Seq<i64> {
    Seq::new(a.len(), |i: int| sat64(fxmul(a[i] as int, s)) as i64)
}

/// Every component divided by the fixed-point divisor `s`, saturating.
pub open spec fn seq_fxdiv(a: Seq<i64>, s: int) -> Seq<i64> {
    Seq::new(a.len(), |i: int| sat64(fxdiv(a[i] as int, s)) as i64)
}

/// The sum of the squares of the components.
pub open spec fn sum_squares(a: Seq<i64>) -> int
    decreases a.len(),
{
    if a.len() == 0 {
        0
    } else {
        (a[0] as int) * (a[0] as int) + sum_squares(a.drop_first())
    }
}

/// The Euclidean magnitude of a component sequence, rounded down.
pub open spec fn magnitude_of(a: Seq<i64>) -> int {
    sqrt_floor(sum_squares(a))
}

/// The sum of squares is never negative.
pub proof fn lemma_sum_squares_nonneg(a: Seq<i64>)
    ensures
        sum_squares(a) >= 0,
    decreases a.len(),
{
    if a.len() > 0 {
        lemma_sum_squares_nonneg(a.drop_first());
        assert((a[0] as int) * (a[0] as int) >= 0) by (nonlinear_arith);
    }
}

/// Sequences with opposite components have the same sum of squares.
pub proof fn lemma_sum_squares_opposite(a: Seq<i64>, b: Seq<i64>)
    requires
        a.len() == b.len(),
        forall|i: int| 0 <= i < a.len() ==> (#[trigger] b[i]) as int == -(a[i] as int),
    ensures
        sum_squares(a) == sum_squares(b),
    decreases a.len(),
{
    if a.len() > 0 {
        assert(forall|i: int|
            0 <= i < a.drop_first().len() ==> (#[trigger] b.drop_first()[i]) as int == -(
            a.drop_first()[i] as int));
        lemma_sum_squares_opposite(a.drop_first(), b.drop_first());
        assert((a[0] as int) * (a[0] as int) == (b[0] as int) * (b[0] as int))
            by (nonlinear_arith)
            requires
                (b[0] as int) == -(a[0] as int),
        ;
    }
}

/// Magnitude is the same for a vector and its opposite.
pub proof fn lemma_magnitude_opposite(a: Seq<i64>, b: Seq<i64>)
    requires
        a.len() == b.len(),
        forall|i: int| 0 <= i < a.len() ==> (#[trigger] b[i]) as int == -(a[i] as int),
    ensures
        magnitude_of(a) == magnitude_of(b),
{
    lemma_sum_squares_opposite(a, b);
}

/// Magnitude is a newtype alias holding the magnitude value of a vector.
#[derive(PartialEq, Eq, Debug, Clone, Copy)]
pub struct Magnitude(pub u64);

/// The capability contract that lets the model operate in N-dimensional
/// space. Implementations fix the component count; all arithmetic is
/// componentwise, fixed-point and saturating.
pub trait Vector: Sized + Copy {
    /// The components, in raw fixed-point units.
    spec fn vals(&self) -> Seq<i64>;

    /// The component count of the implementation: every value has exactly
    /// this many components.
    spec fn dim() -> nat;

    /// Every value has [`Vector::dim`] components, and there is at least
    /// one.
    proof fn lemma_dim(&self)
        ensures
            self.vals().len() == Self::dim(),
            Self::dim() >= 1,
    ;

    /// The origin: every component zero.
    fn origin() -> (r: Self)
        ensures
            forall|i: int| 0 <= i < r.vals().len() ==> (#[trigger] r.vals()[i]) == 0i64,
    ;

    /// Componentwise sum.
    fn add(self, other: Self) -> (r: Self)
        ensures
            r.vals() == seq_sat_add(self.vals(), other.vals()),
    ;

    /// The scalar `s` added to every component.
    fn add_scalar(self, s: i64) -> (r: Self)
        ensures
            r.vals() == seq_add_scalar(self.vals(), s as int),
    ;

    /// Componentwise difference.
    fn sub(self, other: Self) -> (r: Self)
        ensures
            r.vals() == seq_sat_sub(self.vals(), other.vals()),
    ;

    /// Every component scaled by the fixed-point factor `s`.
    fn mul(self, s: i64) -> (r: Self)
        ensures
            r.vals() == seq_fxmul(self.vals(), s as int),
    ;

    /// Every component divided by the positive fixed-point divisor `s`.
    fn div(self, s: u64) -> (r: Self)
        requires
            s != 0,
        ensures
            r.vals() == seq_fxdiv(self.vals(), s as int),
    ;

    /// Returns the magnitude of the vector.
    fn magnitude(&self) -> (r: Magnitude)
        ensures
            r.0 as int == magnitude_of(self.vals()),
    ;

    /// Returns a random vector: each component the next draw of the
    /// injected source, so every component lies in `[0, 1)`. A system
    /// source is outwardly unchanged; for a prepared cycle the components
    /// are exactly the source's next draws, in order, and the stream
    /// shifts by the component count.
    fn random(rng: &mut RandomSource) -> (r: Self)
        requires
            old(rng).wf(),
        ensures
            final(rng).wf(),
            old(rng).same_source(*final(rng)),
            forall|i: int|
                0 <= i < r.vals().len() ==> 0 <= (#[trigger] r.vals()[i]) < SCALE,
            *old(rng) is System ==> *final(rng) == *old(rng),
            *old(rng) is Cycle ==> {
                &&& forall|i: int|
                    0 <= i < r.vals().len() ==> (#[trigger] r.vals()[i]) == old(
                        rng,
                    ).draw_ahead(i)
                &&& forall|k: int|
                    (#[trigger] final(rng).draw_ahead(k)) == old(rng).draw_ahead(
                        k + r.vals().len(),
                    )
            },
    ;
}

/// Relies on rand::random: draws a uniform machine word; nothing is assumed
/// of the outcome.
#[verifier::external_body]
fn random_u64() -> u64 {
    rand::random::<u64>()
}

/// The randomness capability the application injects wherever a random
/// direction may be needed. The model never reaches for a hidden global: a
/// source value is passed in and threaded by mutable reference.
pub enum RandomSource {
    /// Fresh draws from the operating system's generator.
    System,
    /// A prepared cycle of draws, for reproducible runs: the draw at the
    /// cursor is handed out and the cursor advances, wrapping around.
    Cycle { draws: Vec<i64>, next: usize },
}

impl RandomSource {
    /// A well-formed source: a cycle holds at least one draw, each in
    /// `[0, 1)`, with its cursor in range.
    pub open spec fn wf(self) -> bool {
        match self {
            RandomSource::System => true,
            RandomSource::Cycle { draws, next } => {
                &&& draws@.len() > 0
                &&& (next as int) < draws@.len()
                &&& forall|i: int| 0 <= i < draws@.len() ==> 0 <= (#[trigger] draws@[i]) < SCALE
            },
        }
    }

    /// Two sources drawing from the same stream: both system sources, or
    /// both cycles of the same draws (their cursors may differ).
    pub open spec fn same_source(self, other: Self) -> bool {
        match self {
            RandomSource::System => other is System,
            RandomSource::Cycle { draws, next } => (other matches RandomSource::Cycle {
                draws: d,
                next: _,
            } && d@ == draws@),
        }
    }

    /// The draw a cycling source will hand out `k` steps from now.
    pub open spec fn draw_ahead(self, k: int) -> i64 {
        match self {
            RandomSource::System => 0,
            RandomSource::Cycle { draws, next } => draws@[((next as int) + k) % (
            draws@.len() as int)],
        }
    }

    /// A source drawing from the operating system's generator.
    pub fn system() -> (r: Self)
        ensures
            r is System,
            r.wf(),
    {
        RandomSource::System
    }

    /// A source handing out the given draws in order, cyclically. Each draw
    /// is a component value in `[0, 1)`, in raw fixed-point units.
    pub fn from_draws(draws: Vec<i64>) -> (r: Self)
        requires
            draws@.len() > 0,
            forall|i: int| 0 <= i < draws@.len() ==> 0 <= (#[trigger] draws@[i]) < SCALE,
        ensures
            r.wf(),
            r matches RandomSource::Cycle { draws: d, next } && d@ == draws@ && next == 0usize,
    {
        RandomSource::Cycle { draws, next: 0 }
    }

    /// The next draw of the source: a value in `[0, 1)`. A system source is
    /// outwardly unchanged; a cycle hands out the draw at its cursor and
    /// shifts its stream by one.
    pub fn next_unit(&mut self) -> (r: i64)
        requires
            old(self).wf(),
        ensures
            final(self).wf(),
            old(self).same_source(*final(self)),
            0 <= r < SCALE,
            *old(self) is System ==> *final(self) == *old(self),
            *old(self) is Cycle ==> {
                &&& r == old(self).draw_ahead(0)
                &&& forall|k: int|
                    (#[trigger] final(self).draw_ahead(k)) == old(self).draw_ahead(k + 1)
            },
    {
        let r: i64 = match self {
            RandomSource::System => {
                let x: u64 = random_u64();
                (x % (SCALE as u64)) as i64
            },
            RandomSource::Cycle { draws, next } => {
                let len = draws.len();
                let value = draws[*next];
                *next = if *next + 1 < len {
                    *next + 1
                } else {
                    0
                };
                value
            },
        };
        proof {
            match *old(self) {
                RandomSource::Cycle { draws: d0, next: n0 } => {
                    let m = d0@.len() as int;
                    lemma_small_mod(n0 as nat, d0@.len());
                    assert forall|k: int|
                        (#[trigger] self.draw_ahead(k)) == old(self).draw_ahead(k + 1) by {
                        if (n0 as int) + 1 < m {
                            assert(((n0 as int) + 1 + k) % m == ((n0 as int) + (k + 1)) % m);
                        } else {
                            lemma_mod_self_0(m);
                            lemma_mod_shift(m, k, m);
                            assert((0 + k) % m == (m + k) % m);
                            assert((n0 as int) + (k + 1) == m + k);
                        }
                    }
                },
                RandomSource::System => {},
            }
        }
        r
    }
}

/// Adding to a reduced value and reducing again is the same as reducing the
/// plain sum.
proof fn lemma_mod_shift(x: int, k: int, m: int)
    requires
        m > 0,
    ensures
        ((x % m) + k) % m == (x + k) % m,
{
    lemma_mod_twice(x, m);
    lemma_add_mod_noop(x % m, k, m);
    lemma_add_mod_noop(x, k, m);
}

} // verus!
