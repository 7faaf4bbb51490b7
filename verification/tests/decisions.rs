use seir_model::driver::step;
use seir_model::driver::Directive;
use seir_model::driver::Event;
use seir_model::driver::Phase;
use seir_model::outcome::IntegrationFailure;
use seir_model::outcome::Summary;
use seir_model::scalar::Scalar;

fn moment(x: f64) -> Scalar {
    Scalar::from_bits(x.to_bits())
}

fn every_event() -> Vec<Event> {
    vec![
        Event::Completed(Summary { evaluations: 13, accepted_steps: 2, rejected_steps: 0 }),
        Event::Failed(IntegrationFailure::StepSizeUnderflow { time: moment(0.0) }),
        Event::Failed(IntegrationFailure::StiffnessDetected { time: moment(17.0) }),
        Event::Failed(IntegrationFailure::MaxNumStepReached { time: moment(200.0), steps: 100001 }),
        Event::Saved { destination: String::from("\"seir.dat\"") },
        Event::NotSaved { cause: String::from("denied") },
    ]
}

#[test]
fn completed_integration_is_reported_and_exported() {
    let summary = Summary { evaluations: 13, accepted_steps: 2, rejected_steps: 0 };
    let decision = step(Phase::Integrating, &Event::Completed(summary));
    assert_eq!(decision.phase, Phase::Exporting);
    assert_eq!(decision.directive, Directive::Export);
    assert_eq!(
        decision.message,
        "Number of function evaluations: 13\nNumber of accepted steps: 2\nNumber of rejected steps: 0"
    );
}

#[test]
fn abandoned_integration_is_not_exported() {
    let failures = vec![
        IntegrationFailure::StepSizeUnderflow { time: moment(0.0) },
        IntegrationFailure::StiffnessDetected { time: moment(17.0) },
        IntegrationFailure::MaxNumStepReached { time: moment(200.0), steps: 100001 },
    ];
    for failure in failures {
        let decision = step(Phase::Integrating, &Event::Failed(failure));
        assert_eq!(decision.phase, Phase::Finished);
        assert_eq!(decision.directive, Directive::Fail);
        assert_eq!(decision.message, "An error occured.");
    }
}

#[test]
fn written_table_ends_the_run_as_a_success() {
    let event = Event::Saved { destination: String::from("\"out/seir.dat\"") };
    let decision = step(Phase::Exporting, &event);
    assert_eq!(decision.phase, Phase::Finished);
    assert_eq!(decision.directive, Directive::Succeed);
    assert_eq!(decision.message, "Results saved in: \"out/seir.dat\"");
}

#[test]
fn unopened_destination_ends_the_run_as_a_failure() {
    let cause = "Os { code: 2, kind: NotFound, message: \"No such file or directory\" }";
    let decision = step(Phase::Exporting, &Event::NotSaved { cause: String::from(cause) });
    assert_eq!(decision.phase, Phase::Finished);
    assert_eq!(decision.directive, Directive::Fail);
    assert_eq!(
        decision.message,
        "Could not open file. Error: Os { code: 2, kind: NotFound, message: \"No such file or directory\" }"
    );
}

#[test]
fn events_out_of_turn_are_ignored() {
    for event in every_event() {
        let decision = step(Phase::Finished, &event);
        assert_eq!(decision.phase, Phase::Finished);
        assert_eq!(decision.directive, Directive::Ignore);
        assert_eq!(decision.message, "");
    }
    for event in every_event() {
        let decision = step(Phase::Integrating, &event);
        let in_turn = matches!(event, Event::Completed(_) | Event::Failed(_));
        assert_eq!(decision.directive == Directive::Ignore, !in_turn);
        assert_eq!(decision.phase == Phase::Integrating, !in_turn);
    }
    for event in every_event() {
        let decision = step(Phase::Exporting, &event);
        let in_turn = matches!(event, Event::Saved { .. } | Event::NotSaved { .. });
        assert_eq!(decision.directive == Directive::Ignore, !in_turn);
        assert_eq!(decision.phase == Phase::Exporting, !in_turn);
    }
}

#[test]
fn export_follows_a_completed_integration_and_nothing_else() {
    for phase in [Phase::Integrating, Phase::Exporting, Phase::Finished] {
        for event in every_event() {
            let decision = step(phase, &event);
            let expected = phase == Phase::Integrating && matches!(event, Event::Completed(_));
            assert_eq!(decision.directive == Directive::Export, expected);
        }
    }
}

#[test]
fn a_whole_run_takes_two_decisions() {
    let summary = Summary { evaluations: 1509, accepted_steps: 251, rejected_steps: 0 };
    let first = step(Phase::Integrating, &Event::Completed(summary));
    assert_eq!(first.directive, Directive::Export);
    let second = step(first.phase, &Event::Saved { destination: String::from("\"a.dat\"") });
    assert_eq!(second.directive, Directive::Succeed);
    let third = step(second.phase, &Event::Saved { destination: String::from("\"a.dat\"") });
    assert_eq!(third.directive, Directive::Ignore);
    assert_eq!(third.phase, Phase::Finished);
}
