//! Hidden captures and compared logits.
use lfm25_inference::bf16::Bf16;
use lfm25_inference::float::F32;
use lfm25_inference::model::evaluation::{
    overlap, top_indices, EvaluationError, HiddenCapture, LogitMetricAccumulator, LogitStep,
    PointCounters, PropagationAccumulator,
};

fn brains(values: &[f32]) -> Vec<Bf16> {
    values.iter().map(|value| Bf16 { bits: half::bf16::from_f32(*value).to_bits() }).collect()
}

fn singles(values: &[f32]) -> Vec<F32> {
    values.iter().map(|value| F32 { bits: value.to_bits() }).collect()
}

fn capture(points: &[(&str, &[f32])]) -> HiddenCapture {
    let mut capture = HiddenCapture::new();
    for (name, values) in points {
        capture.observe_last_row(name.to_string(), brains(values)).unwrap();
    }
    capture
}

#[test]
fn captures_are_kept_in_name_order() {
    let mut capture = capture(&[("b", &[1.0]), ("a", &[2.0]), ("c", &[3.0])]);
    let names: Vec<&str> = capture.points.iter().map(|point| point.name.as_str()).collect();
    assert_eq!(names, vec!["a", "b", "c"]);
    let again = capture.observe_last_row("b".to_string(), brains(&[9.0]));
    assert!(matches!(again, Err(EvaluationError::DuplicatePoint)));
}

#[test]
fn propagation_counts_every_point() {
    let reference = capture(&[("x", &[1.0, f32::NAN]), ("y", &[1.0])]);
    let candidate = capture(&[("y", &[2.0]), ("x", &[1.0, 4.0])]);
    let mut propagation = PropagationAccumulator::new();
    for _ in 0..2 {
        let positions = propagation.observe(&reference, &candidate).unwrap();
        assert_eq!(positions, vec![vec![0], vec![0]]);
    }
    assert_eq!(propagation.points.len(), 2);
    assert_eq!(propagation.points[0].name, "x");
    assert_eq!(
        propagation.points[0].counters,
        PointCounters { observations: 2, values: 4, non_finite_values: 2 }
    );
    assert_eq!(
        propagation.points[1].counters,
        PointCounters { observations: 2, values: 2, non_finite_values: 0 }
    );
}

#[test]
fn propagation_refuses_unlike_captures() {
    let mut propagation = PropagationAccumulator::new();
    let reference = capture(&[("x", &[1.0]), ("y", &[1.0])]);
    let fewer = capture(&[("x", &[1.0])]);
    assert!(matches!(
        propagation.observe(&reference, &fewer),
        Err(EvaluationError::PointCount)
    ));
    let other = capture(&[("x", &[1.0]), ("z", &[1.0])]);
    match propagation.observe(&reference, &other) {
        Err(EvaluationError::MissingPoint(name)) => assert_eq!(name, "y"),
        _ => panic!("a missing point was accepted"),
    }
    // The point before the missing one was counted.
    assert_eq!(propagation.points[0].counters.observations, 1);
    let longer = capture(&[("x", &[1.0, 2.0]), ("y", &[1.0])]);
    assert!(matches!(
        propagation.observe(&reference, &longer),
        Err(EvaluationError::ShapeMismatch)
    ));
    // A point is entered before its rows are compared.
    let mut fresh = PropagationAccumulator::new();
    assert!(matches!(
        fresh.observe(&reference, &longer),
        Err(EvaluationError::ShapeMismatch)
    ));
    assert_eq!(fresh.points.len(), 1);
    assert_eq!(fresh.points[0].name, "x");
    assert_eq!(
        fresh.points[0].counters,
        PointCounters { observations: 0, values: 0, non_finite_values: 0 }
    );
}

#[test]
fn largest_positions_come_first_and_ties_keep_their_order() {
    let scores = singles(&[1.0, 7.0, 3.0, 7.0, -1.0, 3.0]);
    assert_eq!(top_indices(&scores, 4), vec![1, 3, 2, 5]);
    assert_eq!(top_indices(&scores[..2], 4), vec![1, 0, usize::MAX, usize::MAX]);
    assert_eq!(top_indices(&singles(&[0.0, -0.0]), 2), vec![0, 1]);
}

#[test]
fn overlaps_count_shared_values() {
    assert_eq!(overlap(&[1, 2, 3], &[3, 4, 1]), 2);
    assert_eq!(overlap(&[5, 5], &[5]), 2);
    assert_eq!(overlap(&[1, 2, 3, 4], &[1, 2, 3, 4]), 4);
    assert_eq!(overlap(&[], &[1]), 0);
}

#[test]
fn logits_are_compared_by_their_largest_positions() {
    let reference: Vec<f32> = (0..12).map(|i| i as f32).collect();
    let mut candidate = reference.clone();
    candidate[11] = -1.0;
    let mut accumulator = LogitMetricAccumulator::new();
    match accumulator.observe(&brains(&reference), &brains(&candidate), 3).unwrap() {
        LogitStep::Measured {
            reference_maximum,
            candidate_maximum,
            top1_agrees,
            top5_overlap,
            top10_overlap,
        } => {
            assert_eq!(reference_maximum.bits, 11.0f32.to_bits());
            assert_eq!(candidate_maximum.bits, 10.0f32.to_bits());
            assert!(!top1_agrees);
            assert_eq!(top5_overlap, 4);
            assert_eq!(top10_overlap, 9);
        }
        LogitStep::NonFinite => panic!("finite logits were not measured"),
    }
    let same = accumulator.observe(&brains(&reference), &brains(&reference), 0).unwrap();
    assert!(matches!(
        same,
        LogitStep::Measured { top1_agrees: true, top5_overlap: 5, top10_overlap: 10, .. }
    ));
    assert_eq!(accumulator.observations, 2);
    assert_eq!(accumulator.top1_agreements, 1);
    assert_eq!(accumulator.finish().unwrap(), 2);
}

#[test]
fn logits_that_are_not_finite_are_only_counted() {
    let mut accumulator = LogitMetricAccumulator::new();
    let step = accumulator
        .observe(&brains(&[1.0, f32::NAN, 2.0]), &brains(&[f32::INFINITY, 0.0, 2.0]), 2)
        .unwrap();
    assert!(matches!(step, LogitStep::NonFinite));
    assert_eq!(accumulator.non_finite_logits, 2);
    assert!(matches!(accumulator.finish(), Err(EvaluationError::NoObservations)));
    assert!(matches!(
        accumulator.observe(&brains(&[1.0]), &brains(&[1.0, 2.0]), 0),
        Err(EvaluationError::ShapeMismatch)
    ));
    assert!(matches!(
        accumulator.observe(&brains(&[1.0]), &brains(&[1.0]), 1),
        Err(EvaluationError::TargetOutsideVocabulary)
    ));
}
