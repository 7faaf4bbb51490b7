//! The driver's decisions. The driver has the model integrated, then has the
//! trajectory exported, and tells the operator how each of the two went. The
//! work itself is done elsewhere: this module is told what came of it, as an
//! event, and answers with what to print and what to do next.

use vstd::prelude::*;
use crate::outcome::report_text;
use crate::outcome::IntegrationFailure;
use crate::outcome::Summary;

verus! {

/// Where a run stands.
#[derive(Clone, Copy, Debug, PartialEq, Eq, Structural)]
pub enum Phase {
    /// The integration has not ended yet.
    Integrating,
    /// The integration is complete and the export has not ended yet.
    Exporting,
    /// The run is over.
    Finished,
}

/// What came of the work that the driver had done.
#[derive(Debug)]
pub enum Event {
    /// The integration reached the end time.
    Completed(Summary),
    /// The integration was abandoned.
    Failed(IntegrationFailure),
    /// The table was written. `destination` names the place, as it is to be
    /// shown.
    Saved { destination: String },
    /// The destination could not be opened. `cause` is the reason, as it is
    /// to be shown.
    NotSaved { cause: String },
}

/// What the driver does after it has printed the message.
#[derive(Clone, Copy, Debug, PartialEq, Eq, Structural)]
pub enum Directive {
    /// Export the recorded trajectory.
    Export,
    /// End the run as a success.
    Succeed,
    /// End the run as a failure.
    Fail,
    /// Nothing: the event does not belong to the phase, and nothing is
    /// printed either.
    Ignore,
}

/// The answer to an event.
#[derive(Debug)]
pub struct Decision {
    pub phase: Phase,
    pub directive: Directive,
    pub message: String,
}

/// The phase that follows.
pub open spec fn next_phase(phase: Phase, event: Event) -> Phase {
    match (phase, event) {
        (Phase::Integrating, Event::Completed(_)) => Phase::Exporting,
        (Phase::Integrating, Event::Failed(_)) => Phase::Finished,
        (Phase::Exporting, Event::Saved { .. }) => Phase::Finished,
        (Phase::Exporting, Event::NotSaved { .. }) => Phase::Finished,
        _ => phase,
    }
}

/// What is to be done.
pub open spec fn directive_for(phase: Phase, event: Event) -> Directive {
    match (phase, event) {
        (Phase::Integrating, Event::Completed(_)) => Directive::Export,
        (Phase::Integrating, Event::Failed(_)) => Directive::Fail,
        (Phase::Exporting, Event::Saved { .. }) => Directive::Succeed,
        (Phase::Exporting, Event::NotSaved { .. }) => Directive::Fail,
        _ => Directive::Ignore,
    }
}

/// What is to be printed: the statistics of a completed integration, a
/// notice without particulars for an abandoned one, the destination after
/// the export, or the reason for which there was none.
pub open spec fn message_for(phase: Phase, event: Event) -> Seq<char> {
    match (phase, event) {
        (Phase::Integrating, Event::Completed(summary)) => report_text(summary),
        (Phase::Integrating, Event::Failed(_)) => "An error occured."@,
        (Phase::Exporting, Event::Saved { destination }) => "Results saved in: "@ + destination@,
        (Phase::Exporting, Event::NotSaved { cause }) => "Could not open file. Error: "@ + cause@,
        _ => Seq::empty(),
    }
}

/// Answers an event.
///
/// A trajectory is exported only after a completed integration: what an
/// abandoned one had recorded is never written. Both kinds of failure end
/// the run, and nothing is tried again. Once the run is over, every event is
/// ignored.
pub fn step(phase: Phase, event: &Event) -> (d: Decision)
    ensures
        d.phase == next_phase(phase, *event),
        d.directive == directive_for(phase, *event),
        d.message@ == message_for(phase, *event),
        d.directive == Directive::Export <==> phase == Phase::Integrating && event is Completed,
        event is Failed || event is NotSaved ==> d.directive == Directive::Fail || d.directive
            == Directive::Ignore,
        d.directive == Directive::Fail || d.directive == Directive::Succeed ==> d.phase
            == Phase::Finished,
        phase == Phase::Finished ==> d.directive == Directive::Ignore && d.phase == Phase::Finished,
{
    match (phase, event) {
        (Phase::Integrating, Event::Completed(summary)) => Decision {
            phase: Phase::Exporting,
            directive: Directive::Export,
            message: summary.report(),
        },
        (Phase::Integrating, Event::Failed(_)) => Decision {
            phase: Phase::Finished,
            directive: Directive::Fail,
            message: String::from_str("An error occured."),
        },
        (Phase::Exporting, Event::Saved { destination }) => Decision {
            phase: Phase::Finished,
            directive: Directive::Succeed,
            message: String::from_str("Results saved in: ").concat(destination.as_str()),
        },
        (Phase::Exporting, Event::NotSaved { cause }) => Decision {
            phase: Phase::Finished,
            directive: Directive::Fail,
            message: String::from_str("Could not open file. Error: ").concat(cause.as_str()),
        },
        _ => Decision { phase, directive: Directive::Ignore, message: String::new() },
    }
}

} // verus!
