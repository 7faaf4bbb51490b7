//! How an integration ends: with statistics on its steps, or with the reason
//! for which it was abandoned.

use vstd::prelude::*;
use crate::scalar::Scalar;

verus! {

/// Statistics of a completed integration.
#[derive(Clone, Copy, Debug, PartialEq, Eq, Structural)]
pub struct Summary {
    /// Evaluations of the system's right-hand side.
    pub evaluations: u32,
    /// Trial steps whose error estimate met the tolerance.
    pub accepted_steps: u32,
    /// Trial steps that were repeated with a smaller step size.
    pub rejected_steps: u32,
}

/// Why an integration was abandoned, and the time that it had reached.
#[derive(Clone, Copy, Debug, PartialEq, Eq, Structural)]
pub enum IntegrationFailure {
    /// More steps were needed than the integrator allows.
    MaxNumStepReached { time: Scalar, steps: u32 },
    /// The step size fell below what the time's precision can resolve.
    StepSizeUnderflow { time: Scalar },
    /// The problem appears to have become stiff.
    StiffnessDetected { time: Scalar },
}

/// The decimal digit of a number below ten.
pub open spec fn digit(d: nat) -> char
    recommends
        d < 10,
{
    ((48 + d) as u8) as char
}

/// A number in decimal: no sign, no padding, no leading zero but for zero
/// itself.
pub open spec fn decimal(n: nat) -> Seq<char>
    decreases n,
{
    if n < 10 {
        seq![digit(n)]
    } else {
        decimal(n / 10).push(digit(n % 10))
    }
}

/// The three lines in which the statistics are reported. The last line has
/// no line feed after it.
pub open spec fn report_text(summary: Summary) -> Seq<char> {
    "Number of function evaluations: "@ + decimal(summary.evaluations as nat)
        + "\nNumber of accepted steps: "@ + decimal(summary.accepted_steps as nat)
        + "\nNumber of rejected steps: "@ + decimal(summary.rejected_steps as nat)
}

/// `Display` of `ode_solvers::dop_shared::Stats`, on statistics with the given
/// three counts. That impl writes three labelled lines, the first two ended
/// by a line feed, each count through `Display` of `u32`, which is the
/// count's decimal numeral; this is what `report_text` spells out.
#[verifier::external_body]
fn stats_display(evaluations: u32, accepted_steps: u32, rejected_steps: u32) -> (text: String)
    ensures
        text@ == report_text(Summary { evaluations, accepted_steps, rejected_steps }),
{
    let stats = ode_solvers::dop_shared::Stats {
        num_eval: evaluations,
        accepted_steps,
        rejected_steps,
    };
    format!("{}", stats)
}

impl Summary {
    /// The number of trial steps, accepted or not.
    pub open spec fn total(self) -> nat {
        (self.accepted_steps + self.rejected_steps) as nat
    }

    pub fn total_steps(&self) -> (n: u64)
        ensures
            n == self.total(),
    {
        let accepted: u64 = self.accepted_steps as u64;
        let rejected: u64 = self.rejected_steps as u64;
        accepted + rejected
    }

    /// The statistics as the integrator itself words them.
    pub fn report(&self) -> (text: String)
        ensures
            text@ == report_text(*self),
    {
        stats_display(self.evaluations, self.accepted_steps, self.rejected_steps)
    }
}

impl IntegrationFailure {
    /// The time that the integration had reached when it was abandoned.
    pub open spec fn reached(self) -> Scalar {
        match self {
            IntegrationFailure::MaxNumStepReached { time, .. } => time,
            IntegrationFailure::StepSizeUnderflow { time } => time,
            IntegrationFailure::StiffnessDetected { time } => time,
        }
    }

    pub fn time(&self) -> (t: Scalar)
        ensures
            t == self.reached(),
    {
        match self {
            IntegrationFailure::MaxNumStepReached { time, .. } => *time,
            IntegrationFailure::StepSizeUnderflow { time } => *time,
            IntegrationFailure::StiffnessDetected { time } => *time,
        }
    }
}

} // verus!
