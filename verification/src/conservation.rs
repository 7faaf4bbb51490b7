//! The conservation check: the four fractions of a recorded state should
//! add up to one, within a tolerance.
//!
//! The sum is formed on a binary grid, where it is exact, so that the check
//! itself adds no rounding of its own to what it measures.

use vstd::prelude::*;
use vstd::arithmetic::power2::pow2;
use crate::fixed::below_two;
use crate::fixed::lemma_one_is_a_power_of_two;
use crate::fixed::lemma_truncation_loses_less_than_a_place;
use crate::fixed::lemma_count_is_bounded;
use crate::fixed::to_fixed;
use crate::fixed::truncated;
use crate::fixed::ONE;
use crate::model::Compartments;
use crate::scalar::Scalar;
use crate::trajectory::Sample;
use crate::trajectory::State;
use crate::trajectory::TrajectoryRecorder;

verus! {

/// The state as the real numbers that its encodings stand for.
pub open spec fn exact(state: State) -> Compartments
    recommends
        state.finite(),
{
    Compartments {
        s: state.s.value(),
        e: state.e.value(),
        i: state.i.value(),
        r: state.r.value(),
    }
}

/// The state's four fractions, each cut off to the grid, added up, less
/// one: how far the state is from conserving the population, as a count of
/// places.
pub open spec fn deviation(state: State) -> int
    recommends
        below_two(state.s),
        below_two(state.e),
        below_two(state.i),
        below_two(state.r),
{
    truncated(state.s) + truncated(state.e) + truncated(state.i) + truncated(state.r) - ONE
}

/// The state conserves the population within the tolerance: its fractions
/// and the tolerance are below two in magnitude, the tolerance is not
/// negative, and the deviation is at most the tolerance in either
/// direction.
pub open spec fn conserved(state: State, tolerance: Scalar) -> bool {
    &&& below_two(state.s)
    &&& below_two(state.e)
    &&& below_two(state.i)
    &&& below_two(state.r)
    &&& below_two(tolerance)
    &&& !tolerance.negative()
    &&& -truncated(tolerance) <= deviation(state) <= truncated(tolerance)
}

/// Every recorded state conserves the population within the tolerance.
pub open spec fn all_conserved(samples: Seq<Sample>, tolerance: Scalar) -> bool {
    forall|k: int| 0 <= k < samples.len() ==> conserved((#[trigger] samples[k]).state, tolerance)
}

impl State {
    /// Whether the state conserves the population within the tolerance.
    pub fn is_conserved(&self, tolerance: &Scalar) -> (r: bool)
        ensures
            r == conserved(*self, *tolerance),
    {
        if tolerance.is_sign_negative() {
            return false;
        }
        match (to_fixed(&self.s), to_fixed(&self.e), to_fixed(&self.i), to_fixed(&self.r), to_fixed(tolerance)) {
            (Some(s), Some(e), Some(i), Some(r), Some(bound)) => {
                proof {
                    lemma_count_is_bounded(self.s);
                    lemma_count_is_bounded(self.e);
                    lemma_count_is_bounded(self.i);
                    lemma_count_is_bounded(self.r);
                    lemma_count_is_bounded(*tolerance);
                }
                let deviation: i128 = s + e + i + r - ONE;
                -bound <= deviation && deviation <= bound
            },
            _ => false,
        }
    }
}

impl TrajectoryRecorder {
    /// Whether every recorded state conserves the population within the
    /// tolerance.
    pub fn conserves_population(&self, tolerance: &Scalar) -> (r: bool)
        ensures
            r == all_conserved(self@, *tolerance),
    {
        let points = self.export();
        let n: usize = points.len();
        let mut k: usize = 0;
        while k < n
            invariant
                n == points.len(),
                points@ == self@,
                k <= n,
                all_conserved(points@.take(k as int), *tolerance),
            decreases n - k,
        {
            if !points[k].state.is_conserved(tolerance) {
                return false;
            }
            proof {
                let before = points@.take(k as int);
                let upto = points@.take(k + 1);
                assert forall|j: int| 0 <= j < upto.len() implies conserved(
                    (#[trigger] upto[j]).state,
                    *tolerance,
                ) by {
                    if j < k {
                        assert(conserved(before[j].state, *tolerance));
                    }
                }
            }
            k += 1;
        }
        proof {
            assert(points@.take(k as int) =~= self@);
        }
        true
    }
}

/// What the check finds is true of the numbers themselves, up to the four
/// places that cutting off four fractions can lose: in a state that
/// conserves the population within the tolerance, the values of the four
/// fractions add up to one within the tolerance's value and four places.
/// Both sides are stated in places, that is, times 2 to the power of 100.
pub proof fn lemma_conserved_bounds_the_total(state: State, tolerance: Scalar)
    requires
        conserved(state, tolerance),
    ensures
        (exact(state).total() - 1real) * (pow2(100) as real) < tolerance.value() * (pow2(100) as real)
            + 4real,
        (exact(state).total() - 1real) * (pow2(100) as real) > -(tolerance.value() * (pow2(
            100,
        ) as real) + 4real),
{
    let one = pow2(100) as real;
    lemma_one_is_a_power_of_two();
    lemma_truncation_loses_less_than_a_place(state.s);
    lemma_truncation_loses_less_than_a_place(state.e);
    lemma_truncation_loses_less_than_a_place(state.i);
    lemma_truncation_loses_less_than_a_place(state.r);
    lemma_truncation_loses_less_than_a_place(tolerance);
    let s = state.s.value();
    let e = state.e.value();
    let i = state.i.value();
    let r = state.r.value();
    assert((s + e + i + r - 1real) * one == s * one + e * one + i * one + r * one - one)
        by (nonlinear_arith);
    assert(deviation(state) as real == truncated(state.s) as real + truncated(state.e) as real
        + truncated(state.i) as real + truncated(state.r) as real - one);
}

/// What is true of the numbers themselves is found by the check, up to the
/// places that cutting off can lose: a state whose fractions are below two in
/// magnitude, and whose values add up to one within the tolerance's value
/// less four places, conserves the population within the tolerance.
pub proof fn lemma_small_deviation_is_conserved(state: State, tolerance: Scalar)
    requires
        below_two(state.s),
        below_two(state.e),
        below_two(state.i),
        below_two(state.r),
        below_two(tolerance),
        !tolerance.negative(),
        (exact(state).total() - 1real) * (pow2(100) as real) <= tolerance.value() * (pow2(
            100,
        ) as real) - 4real,
        (exact(state).total() - 1real) * (pow2(100) as real) >= -(tolerance.value() * (pow2(
            100,
        ) as real) - 4real),
    ensures
        conserved(state, tolerance),
{
    let one = pow2(100) as real;
    lemma_one_is_a_power_of_two();
    lemma_truncation_loses_less_than_a_place(state.s);
    lemma_truncation_loses_less_than_a_place(state.e);
    lemma_truncation_loses_less_than_a_place(state.i);
    lemma_truncation_loses_less_than_a_place(state.r);
    lemma_truncation_loses_less_than_a_place(tolerance);
    let s = state.s.value();
    let e = state.e.value();
    let i = state.i.value();
    let r = state.r.value();
    assert((s + e + i + r - 1real) * one == s * one + e * one + i * one + r * one - one)
        by (nonlinear_arith);
    assert(deviation(state) as real == truncated(state.s) as real + truncated(state.e) as real
        + truncated(state.i) as real + truncated(state.r) as real - one);
    let bound = truncated(tolerance);
    let d = deviation(state);
    assert((d as real) < (bound as real) + 1real);
    assert((d as real) > -(bound as real) - 1real);
}

} // verus!
