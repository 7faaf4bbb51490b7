use seir_model::outcome::IntegrationFailure;
use seir_model::outcome::Summary;
use seir_model::scalar::Scalar;

fn at(x: f64) -> Scalar {
    Scalar::from_bits(x.to_bits())
}

#[test]
fn report_words_the_statistics_in_three_lines() {
    let summary = Summary { evaluations: 1532, accepted_steps: 250, rejected_steps: 5 };
    assert_eq!(
        summary.report(),
        "Number of function evaluations: 1532\nNumber of accepted steps: 250\nNumber of rejected steps: 5"
    );
}

#[test]
fn report_of_zero_and_of_the_largest_counts() {
    let none = Summary { evaluations: 0, accepted_steps: 0, rejected_steps: 0 };
    assert_eq!(
        none.report(),
        "Number of function evaluations: 0\nNumber of accepted steps: 0\nNumber of rejected steps: 0"
    );
    let most = Summary { evaluations: u32::MAX, accepted_steps: 10, rejected_steps: 4_000_000_000 };
    assert_eq!(
        most.report(),
        "Number of function evaluations: 4294967295\nNumber of accepted steps: 10\nNumber of rejected steps: 4000000000"
    );
}

#[test]
fn report_is_what_the_integrator_prints() {
    let stats = ode_solvers::dop_shared::Stats { num_eval: 91, accepted_steps: 14, rejected_steps: 1 };
    let summary = Summary { evaluations: 91, accepted_steps: 14, rejected_steps: 1 };
    assert_eq!(summary.report(), format!("{}", stats));
}

#[test]
fn total_steps_adds_accepted_and_rejected() {
    let summary = Summary { evaluations: 7, accepted_steps: 250, rejected_steps: 5 };
    assert_eq!(summary.total_steps(), 255);
    let most = Summary { evaluations: 0, accepted_steps: u32::MAX, rejected_steps: u32::MAX };
    assert_eq!(most.total_steps(), 8_589_934_590);
}

#[test]
fn failure_carries_the_time_reached() {
    assert_eq!(IntegrationFailure::StepSizeUnderflow { time: at(12.5) }.time(), at(12.5));
    assert_eq!(IntegrationFailure::StiffnessDetected { time: at(3.0) }.time(), at(3.0));
    assert_eq!(IntegrationFailure::MaxNumStepReached { time: at(349.0), steps: 100001 }.time(), at(349.0));
}
