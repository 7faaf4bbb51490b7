use seir_model::scalar::Scalar;
use seir_model::trajectory::Sample;
use seir_model::trajectory::State;
use seir_model::trajectory::TrajectoryRecorder;

fn point(x: f64) -> Scalar {
    Scalar::from_bits(x.to_bits())
}

fn fractions(s: f64, e: f64, i: f64, r: f64) -> State {
    State { s: point(s), e: point(e), i: point(i), r: point(r) }
}

fn recording(times: &[f64]) -> TrajectoryRecorder {
    let mut recorder = TrajectoryRecorder::new();
    for t in times {
        recorder.record(point(*t), fractions(1.0, 0.0, 0.0, 0.0));
    }
    recorder
}

#[test]
fn new_recorder_is_empty() {
    let recorder = TrajectoryRecorder::new();
    assert_eq!(recorder.len(), 0);
    assert!(recorder.export().is_empty());
    assert_eq!(recorder.final_time(), None);
}

#[test]
fn record_appends_in_insertion_order() {
    let mut recorder = TrajectoryRecorder::new();
    recorder.record(point(0.0), fractions(0.9, 0.1, 0.0, 0.0));
    recorder.record(point(0.5), fractions(0.8, 0.1, 0.1, 0.0));
    recorder.record(point(1.5), fractions(0.7, 0.1, 0.1, 0.1));
    assert_eq!(recorder.len(), 3);
    let expected = vec![
        Sample { time: point(0.0), state: fractions(0.9, 0.1, 0.0, 0.0) },
        Sample { time: point(0.5), state: fractions(0.8, 0.1, 0.1, 0.0) },
        Sample { time: point(1.5), state: fractions(0.7, 0.1, 0.1, 0.1) },
    ];
    assert_eq!(recorder.export(), &expected);
    assert_eq!(recorder.final_time(), Some(point(1.5)));
}

#[test]
fn record_neither_merges_nor_reorders() {
    let mut recorder = TrajectoryRecorder::new();
    recorder.record(point(2.0), fractions(0.5, 0.5, 0.0, 0.0));
    recorder.record(point(2.0), fractions(0.5, 0.5, 0.0, 0.0));
    recorder.record(point(1.0), fractions(0.25, 0.75, 0.0, 0.0));
    assert_eq!(recorder.len(), 3);
    assert_eq!(recorder.export()[0], recorder.export()[1]);
    assert_eq!(recorder.export()[2].time, point(1.0));
    assert!(!recorder.is_chronological());
}

#[test]
fn recorded_point_is_a_snapshot() {
    let mut recorder = TrajectoryRecorder::new();
    let mut state = fractions(0.9, 0.1, 0.0, 0.0);
    recorder.record(point(0.0), state);
    state.s = point(0.0);
    assert_eq!(recorder.export()[0].state, fractions(0.9, 0.1, 0.0, 0.0));
    assert_ne!(recorder.export()[0].state, state);
}

#[test]
fn chronological_means_strictly_increasing() {
    assert!(recording(&[]).is_chronological());
    assert!(recording(&[4.0]).is_chronological());
    assert!(recording(&[0.0, 0.25, 1.0, 350.0]).is_chronological());
    assert!(recording(&[-3.0, -1.0, 0.0, 2.0]).is_chronological());
    assert!(!recording(&[0.0, 1.0, 1.0, 2.0]).is_chronological());
    assert!(!recording(&[0.0, 2.0, 1.0, 3.0]).is_chronological());
    assert!(!recording(&[0.0, 1.0, 2.0, 1.5]).is_chronological());
    assert!(!recording(&[-0.0, 0.0]).is_chronological());
    assert!(!recording(&[0.0, f64::NAN, 2.0]).is_chronological());
    assert!(recording(&[f64::NAN]).is_chronological());
}

#[test]
fn covers_asks_for_start_end_and_the_point_before_the_end() {
    let t0 = point(0.0);
    let t1 = point(350.0);
    assert!(recording(&[0.0, 100.0, 350.0]).covers(&t0, &t1));
    assert!(recording(&[0.0, 349.5, 351.0]).covers(&t0, &t1));
    assert!(recording(&[-0.0, 350.0]).covers(&t0, &t1));
    assert!(!recording(&[]).covers(&t0, &t1));
    assert!(!recording(&[1.0, 100.0, 350.0]).covers(&t0, &t1));
    assert!(!recording(&[0.0, 100.0, 349.0]).covers(&t0, &t1));
    assert!(!recording(&[0.0, 350.0, 351.0]).covers(&t0, &t1));
    assert!(!recording(&[0.0, 100.0, f64::NAN]).covers(&t0, &t1));
    assert!(!recording(&[0.0]).covers(&t0, &t1));
    assert!(recording(&[0.0]).covers(&t0, &t0));
}

#[test]
fn ends_at_asks_for_the_exact_end_time() {
    let t1 = point(350.0);
    assert!(recording(&[0.0, 350.0]).ends_at(&t1));
    assert!(!recording(&[0.0, 350.00000000000006]).ends_at(&t1));
    assert!(!recording(&[0.0, 349.99999999999994]).ends_at(&t1));
    assert!(!recording(&[]).ends_at(&t1));
    assert!(recording(&[-0.0]).ends_at(&point(0.0)));
}

#[test]
fn finiteness_looks_at_every_number() {
    let mut recorder = recording(&[0.0, 1.0]);
    assert!(recorder.is_finite());
    assert!(recording(&[]).is_finite());
    assert!(!recording(&[0.0, f64::INFINITY]).is_finite());
    recorder.record(point(2.0), fractions(0.5, 0.25, f64::NAN, 0.25));
    assert!(!recorder.is_finite());
    assert!(fractions(0.1, 0.2, 0.3, 0.4).is_finite());
    assert!(!fractions(f64::NEG_INFINITY, 0.2, 0.3, 0.4).is_finite());
    assert!(!fractions(0.1, f64::NAN, 0.3, 0.4).is_finite());
    assert!(!fractions(0.1, 0.2, 0.3, f64::INFINITY).is_finite());
}

#[test]
fn non_negativity_looks_at_every_fraction() {
    assert!(fractions(0.0, 0.25, 0.5, 1.0).is_non_negative());
    assert!(fractions(-0.0, 0.0, f64::INFINITY, 1.0e-300).is_non_negative());
    assert!(!fractions(-1.0e-300, 0.25, 0.5, 1.0).is_non_negative());
    assert!(!fractions(0.1, 0.2, 0.3, -0.4).is_non_negative());
    assert!(!fractions(0.1, f64::NAN, 0.3, 0.4).is_non_negative());
    let mut recorder = recording(&[0.0, 1.0]);
    assert!(recorder.is_non_negative());
    assert!(TrajectoryRecorder::new().is_non_negative());
    recorder.record(point(2.0), fractions(0.5, 0.5, -1.0e-17, 0.0));
    assert!(!recorder.is_non_negative());
}
