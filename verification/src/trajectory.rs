//! The recorded trajectory: the points that an integration accepted, in the
//! order in which it accepted them, and the properties that a finished
//! recording is expected to have.

use vstd::prelude::*;
use crate::outcome::Summary;
use crate::scalar::Scalar;
use crate::scalar::lemma_less_is_strict_order;

verus! {

/// The fractions of the population that are susceptible, exposed, infectious
/// and recovered.
#[derive(Clone, Copy, Debug, PartialEq, Eq, Structural)]
pub struct State {
    pub s: Scalar,
    pub e: Scalar,
    pub i: Scalar,
    pub r: Scalar,
}

/// One recorded point: a time and the state at that time.
#[derive(Clone, Copy, Debug, PartialEq, Eq, Structural)]
pub struct Sample {
    pub time: Scalar,
    pub state: State,
}

impl State {
    /// All four fractions are finite numbers.
    pub open spec fn finite(self) -> bool {
        self.s.finite() && self.e.finite() && self.i.finite() && self.r.finite()
    }

    pub fn is_finite(&self) -> (r: bool)
        ensures
            r == self.finite(),
    {
        self.s.is_finite() && self.e.is_finite() && self.i.is_finite() && self.r.is_finite()
    }

    /// None of the four fractions is below zero, and none is a NaN.
    pub open spec fn non_negative(self) -> bool {
        let zero = Scalar { bits: 0 };
        zero.at_most(self.s) && zero.at_most(self.e) && zero.at_most(self.i) && zero.at_most(self.r)
    }

    pub fn is_non_negative(&self) -> (r: bool)
        ensures
            r == self.non_negative(),
    {
        let zero = Scalar::from_bits(0);
        zero.le(&self.s) && zero.le(&self.e) && zero.le(&self.i) && zero.le(&self.r)
    }
}

/// Every time is below every later one.
pub open spec fn chronological(samples: Seq<Sample>) -> bool {
    forall|i: int, j: int|
        0 <= i < j < samples.len() ==> (#[trigger] samples[i]).time.less(
            (#[trigger] samples[j]).time,
        )
}

/// The recording spans the interval from `t0` to `t1`: it starts at `t0`,
/// its last point lies at or beyond `t1`, and the point before the last, if
/// there is one, lies before `t1`.
pub open spec fn covers(samples: Seq<Sample>, t0: Scalar, t1: Scalar) -> bool {
    &&& samples.len() >= 1
    &&& samples[0].time.same(t0)
    &&& t1.at_most(samples.last().time)
    &&& samples.len() >= 2 ==> samples[samples.len() - 2].time.less(t1)
}

/// The last point lies at `t1` exactly.
pub open spec fn ends_at(samples: Seq<Sample>, t1: Scalar) -> bool {
    samples.len() >= 1 && samples.last().time.same(t1)
}

/// No time and no fraction is an infinity or a NaN.
pub open spec fn all_finite(samples: Seq<Sample>) -> bool {
    forall|i: int|
        0 <= i < samples.len() ==> (#[trigger] samples[i]).time.finite() && samples[i].state.finite()
}

/// No recorded fraction is below zero or a NaN.
pub open spec fn all_non_negative(samples: Seq<Sample>) -> bool {
    forall|i: int| 0 <= i < samples.len() ==> (#[trigger] samples[i]).state.non_negative()
}

/// The recording holds the initial condition and one point for each step
/// that the statistics count as accepted.
pub open spec fn one_point_per_step(samples: Seq<Sample>, summary: Summary) -> bool {
    samples.len() == summary.accepted_steps + 1
}

/// An append-only record of the accepted points.
pub struct TrajectoryRecorder {
    samples: Vec<Sample>,
}

impl View for TrajectoryRecorder {
    type V = Seq<Sample>;

    closed spec fn view(&self) -> Seq<Sample> {
        self.samples@
    }
}

impl TrajectoryRecorder {
    /// A recorder that holds nothing yet.
    pub fn new() -> (r: TrajectoryRecorder)
        ensures
            r@ == Seq::<Sample>::empty(),
    {
        TrajectoryRecorder { samples: Vec::new() }
    }

    /// Appends a point. Earlier points stay as they are, and nothing is
    /// merged or dropped, whatever the point holds.
    pub fn record(&mut self, time: Scalar, state: State)
        ensures
            final(self)@ == old(self)@.push(Sample { time, state }),
    {
        self.samples.push(Sample { time, state });
    }

    /// The number of recorded points.
    pub fn len(&self) -> (n: usize)
        ensures
            n == self@.len(),
    {
        self.samples.len()
    }

    /// All recorded points, oldest first.
    pub fn export(&self) -> (points: &Vec<Sample>)
        ensures
            points@ == self@,
    {
        &self.samples
    }

    /// The time of the last recorded point, if there is one.
    pub fn final_time(&self) -> (t: Option<Scalar>)
        ensures
            self@.len() == 0 ==> t.is_none(),
            self@.len() > 0 ==> t == Some(self@.last().time),
    {
        let n: usize = self.samples.len();
        if n == 0 {
            None
        } else {
            Some(self.samples[n - 1].time)
        }
    }

    /// Whether the times strictly increase from each point to every later
    /// one.
    pub fn is_chronological(&self) -> (r: bool)
        ensures
            r == chronological(self@),
    {
        let n: usize = self.samples.len();
        if n == 0 {
            return true;
        }
        let mut k: usize = 1;
        while k < n
            invariant
                n == self.samples.len(),
                1 <= k <= n,
                chronological(self.samples@.take(k as int)),
            decreases n - k,
        {
            if !self.samples[k - 1].time.lt(&self.samples[k].time) {
                return false;
            }
            proof {
                let before = self.samples@.take(k as int);
                let upto = self.samples@.take(k + 1);
                assert forall|i: int, j: int| 0 <= i < j < upto.len() implies (#[trigger] upto[i]).time.less(
                    (#[trigger] upto[j]).time,
                ) by {
                    if j == k && i < k - 1 {
                        assert(before[i].time.less(before[k - 1].time));
                        lemma_less_is_strict_order(upto[i].time, upto[k - 1].time, upto[j].time);
                    } else if j < k {
                        assert(before[i].time.less(before[j].time));
                    }
                }
            }
            k += 1;
        }
        proof {
            assert(self.samples@.take(k as int) =~= self.samples@);
        }
        true
    }

    /// Whether the recording spans the interval from `t0` to `t1`.
    pub fn covers(&self, t0: &Scalar, t1: &Scalar) -> (r: bool)
        ensures
            r == covers(self@, *t0, *t1),
    {
        let n: usize = self.samples.len();
        if n == 0 {
            return false;
        }
        self.samples[0].time.same_value(t0) && t1.le(&self.samples[n - 1].time) && (n < 2
            || self.samples[n - 2].time.lt(t1))
    }

    /// Whether the last point lies at `t1` exactly.
    pub fn ends_at(&self, t1: &Scalar) -> (r: bool)
        ensures
            r == ends_at(self@, *t1),
    {
        let n: usize = self.samples.len();
        n >= 1 && self.samples[n - 1].time.same_value(t1)
    }

    /// Whether the recording holds the initial condition and one point for
    /// each accepted step.
    pub fn has_one_point_per_step(&self, summary: &Summary) -> (r: bool)
        ensures
            r == one_point_per_step(self@, *summary),
    {
        let n: usize = self.samples.len();
        n >= 1 && n - 1 == summary.accepted_steps as usize
    }

    /// Whether no recorded fraction is below zero or a NaN.
    pub fn is_non_negative(&self) -> (r: bool)
        ensures
            r == all_non_negative(self@),
    {
        let n: usize = self.samples.len();
        let mut k: usize = 0;
        while k < n
            invariant
                n == self.samples.len(),
                k <= n,
                all_non_negative(self.samples@.take(k as int)),
            decreases n - k,
        {
            if !self.samples[k].state.is_non_negative() {
                return false;
            }
            proof {
                let before = self.samples@.take(k as int);
                let upto = self.samples@.take(k + 1);
                assert forall|i: int| 0 <= i < upto.len() implies (#[trigger] upto[i]).state.non_negative() by {
                    if i < k {
                        assert(before[i].state.non_negative());
                    }
                }
            }
            k += 1;
        }
        proof {
            assert(self.samples@.take(k as int) =~= self.samples@);
        }
        true
    }

    /// Whether every recorded number is finite.
    pub fn is_finite(&self) -> (r: bool)
        ensures
            r == all_finite(self@),
    {
        let n: usize = self.samples.len();
        let mut k: usize = 0;
        while k < n
            invariant
                n == self.samples.len(),
                k <= n,
                all_finite(self.samples@.take(k as int)),
            decreases n - k,
        {
            if !(self.samples[k].time.is_finite() && self.samples[k].state.is_finite()) {
                return false;
            }
            proof {
                let before = self.samples@.take(k as int);
                let upto = self.samples@.take(k + 1);
                assert forall|i: int| 0 <= i < upto.len() implies (#[trigger] upto[i]).time.finite()
                    && upto[i].state.finite() by {
                    if i < k {
                        assert(before[i].time.finite());
                    }
                }
            }
            k += 1;
        }
        proof {
            assert(self.samples@.take(k as int) =~= self.samples@);
        }
        true
    }
}

/// In a chronological recording that spans the interval from `t0` to `t1`,
/// no point lies before `t0` or after the last point, and every point but
/// the last lies before `t1`: the end time is passed by the last step alone.
pub proof fn lemma_spanning_recording_is_bounded(
    samples: Seq<Sample>,
    t0: Scalar,
    t1: Scalar,
    k: int,
)
    requires
        chronological(samples),
        covers(samples, t0, t1),
        0 <= k < samples.len(),
    ensures
        t0.at_most(samples[k].time),
        samples[k].time.at_most(samples.last().time),
        k < samples.len() - 1 ==> samples[k].time.less(t1),
{
    let last = samples.len() - 1;
    if 0 < k {
        assert(samples[0].time.less(samples[k].time));
    }
    if k < last {
        assert(samples[k].time.less(samples[last].time));
        if k < last - 1 {
            assert(samples[k].time.less(samples[last - 1].time));
            lemma_less_is_strict_order(samples[k].time, samples[last - 1].time, t1);
        }
    }
}

/// A chronological recording that starts at `t0` and whose last point lies
/// at `t1` exactly spans the interval from `t0` to `t1`.
pub proof fn lemma_exact_end_spans(samples: Seq<Sample>, t0: Scalar, t1: Scalar)
    requires
        chronological(samples),
        samples.len() >= 1,
        samples[0].time.same(t0),
        ends_at(samples, t1),
    ensures
        covers(samples, t0, t1),
{
    let last = samples.len() - 1;
    if samples.len() >= 2 {
        assert(samples[last - 1].time.less(samples[last].time));
    }
}

/// A recording as an integration from `t0` towards `t1` builds it: it starts
/// at `t0`, its times strictly increase, and every point but the last lies
/// before `t1`, since a step is taken only from a point before the end.
pub open spec fn stepwise(samples: Seq<Sample>, t0: Scalar, t1: Scalar) -> bool {
    &&& samples.len() >= 1
    &&& samples[0].time.same(t0)
    &&& chronological(samples)
    &&& forall|i: int| 0 <= i < samples.len() - 1 ==> (#[trigger] samples[i]).time.less(t1)
}

/// The initial condition alone is a stepwise recording.
pub proof fn lemma_initial_condition_is_stepwise(start: Sample, t0: Scalar, t1: Scalar)
    requires
        start.time.same(t0),
    ensures
        stepwise(seq![start], t0, t1),
{
}

/// Recording an accepted step keeps a recording stepwise, provided that the
/// step was taken from a point before the end and led to a later time.
pub proof fn lemma_accepted_step_stays_stepwise(
    samples: Seq<Sample>,
    next: Sample,
    t0: Scalar,
    t1: Scalar,
)
    requires
        stepwise(samples, t0, t1),
        samples.last().time.less(t1),
        samples.last().time.less(next.time),
    ensures
        stepwise(samples.push(next), t0, t1),
{
    let longer = samples.push(next);
    let last = samples.len() - 1;
    assert forall|i: int, j: int| 0 <= i < j < longer.len() implies (#[trigger] longer[i]).time.less(
        (#[trigger] longer[j]).time,
    ) by {
        if j < samples.len() {
            assert(samples[i].time.less(samples[j].time));
        } else if i < last {
            assert(samples[i].time.less(samples[last].time));
            lemma_less_is_strict_order(samples[i].time, samples[last].time, next.time);
        }
    }
    assert forall|i: int| 0 <= i < longer.len() - 1 implies (#[trigger] longer[i]).time.less(t1) by {
        if i < last {
            assert(samples[i].time.less(t1));
        }
    }
}

/// A stepwise recording whose last point has reached the end is
/// chronological and spans the interval: the times strictly increase, the
/// first is `t0`, the last lies at or beyond `t1`, and the one before it
/// lies before `t1`.
pub proof fn lemma_completed_recording_spans(samples: Seq<Sample>, t0: Scalar, t1: Scalar)
    requires
        stepwise(samples, t0, t1),
        t1.at_most(samples.last().time),
    ensures
        chronological(samples),
        covers(samples, t0, t1),
{
    if samples.len() >= 2 {
        assert(samples[samples.len() - 2].time.less(t1));
    }
}

} // verus!
