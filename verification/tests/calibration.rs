//! Calibration statistics and samples.
use lfm25_inference::bf16::Bf16;
use lfm25_inference::float::F32;
use lfm25_inference::model::calibration::{
    activation_outliers, calibration_rows, last_row_range, CalibrationCollector, CalibrationError,
    CalibrationPhase, CalibrationTensorKind, OutlierCandidate, RowRange, TensorStatistics,
};

fn brain(value: f32) -> Bf16 {
    Bf16 { bits: half::bf16::from_f32(value).to_bits() }
}

fn brains(values: &[f32]) -> Vec<Bf16> {
    values.iter().map(|value| brain(*value)).collect()
}

fn number(value: Bf16) -> f32 {
    half::bf16::from_bits(value.bits).to_f32()
}

fn rank(statistics: &TensorStatistics, fraction: f64) -> u64 {
    (statistics.finite_values as f64 * fraction).ceil() as u64
}

#[test]
fn bf16_histogram_percentiles_are_exact() {
    let values = brains(&[1.0, -2.0, 3.0, 4.0]);
    let mut accumulator = TensorStatistics::new(CalibrationTensorKind::Activation, 2, 2);
    accumulator.observe(&values, 2, 2).unwrap();
    assert_eq!(number(accumulator.percentile(rank(&accumulator, 0.50))), 2.0);
    assert_eq!(number(accumulator.percentile(rank(&accumulator, 0.99))), 4.0);
    assert_eq!(number(accumulator.amax()), 4.0);
    let above = accumulator.count_above(F32 { bits: 2.0f32.to_bits() });
    assert_eq!(above as f64 / accumulator.finite_values as f64, 0.5);
}

#[test]
fn statistics_count_what_they_see() {
    let values = brains(&[0.0, -0.0, 5.0, f32::NAN, f32::INFINITY, -5.0]);
    let mut statistics = TensorStatistics::new(CalibrationTensorKind::Weight, 3, 2);
    statistics.observe(&values, 3, 2).unwrap();
    statistics.observe(&values[..3], 3, 1).unwrap();
    assert_eq!(statistics.observations, 2);
    assert_eq!((statistics.min_rows, statistics.max_rows), (1, 2));
    assert_eq!(statistics.finite_values, 7);
    assert_eq!(statistics.non_finite_values, 2);
    assert_eq!(statistics.zeros, 4);
    assert_eq!(number(statistics.amax()), 5.0);
    assert_eq!(statistics.count_above(F32 { bits: 0 }), 3);
    assert_eq!(statistics.count_above(F32 { bits: (-1.0f32).to_bits() }), 0);
    assert_eq!(statistics.count_above(F32 { bits: f32::NAN.to_bits() }), 0);
    assert_eq!(
        statistics.observe(&values, 2, 3).unwrap_err(),
        CalibrationError::FeatureSizeChanged { before: 3, now: 2 }
    );
}

#[test]
fn percentiles_grow_with_their_rank() {
    let values: Vec<Bf16> = (1..=100).map(|value| brain(value as f32)).collect();
    let mut statistics = TensorStatistics::new(CalibrationTensorKind::Activation, 100, 1);
    statistics.observe(&values, 100, 1).unwrap();
    let mut last = 0.0;
    for wanted in 0..=100 {
        let value = number(statistics.percentile(wanted));
        assert!(value >= last);
        last = value;
    }
    assert_eq!(number(statistics.percentile(0)), 1.0);
    assert_eq!(number(statistics.percentile(101)), 100.0);
    let empty = TensorStatistics::new(CalibrationTensorKind::Activation, 4, 1);
    assert_eq!(empty.percentile(3).bits, 0);
}

#[test]
fn shapes_of_calibrated_tensors() {
    assert_eq!(calibration_rows(&[4, 8], 32), Ok((8, 4)));
    assert_eq!(calibration_rows(&[], 0), Err(CalibrationError::RankZero));
    assert_eq!(calibration_rows(&[3, 0], 0), Err(CalibrationError::EmptyTensor));
    assert_eq!(last_row_range(&[3, 5]), Ok(RowRange { start: 10, end: 15 }));
    assert_eq!(last_row_range(&[3]), Err(CalibrationError::NotRankTwo));
    assert_eq!(last_row_range(&[0, 5]), Err(CalibrationError::EmptyTensor));
    assert_eq!(last_row_range(&[usize::MAX, 2]), Err(CalibrationError::OffsetOverflow));
}

#[test]
fn sites_are_kept_apart_by_phase() {
    let mut collector = CalibrationCollector::new(0);
    let row = brains(&[1.0, 2.0]);
    collector.observe("a", CalibrationTensorKind::Activation, 2, 1, &row).unwrap();
    collector.set_activation_phase(CalibrationPhase::Decode).unwrap();
    collector.observe("a", CalibrationTensorKind::Activation, 2, 1, &row).unwrap();
    collector.observe_last_row("a", 2, &row).unwrap();
    collector.observe("a", CalibrationTensorKind::Weight, 2, 1, &row).unwrap();
    let seen = |phase| collector.statistics_of(phase, "a").unwrap().observations;
    assert_eq!(seen(CalibrationPhase::Prefill), 1);
    assert_eq!(seen(CalibrationPhase::Decode), 2);
    assert_eq!(seen(CalibrationPhase::Weight), 1);
    assert!(collector.statistics_of(CalibrationPhase::Decode, "b").is_none());
    assert_eq!(
        collector.set_activation_phase(CalibrationPhase::Weight).unwrap_err(),
        CalibrationError::WeightPhase
    );
    assert_eq!(
        collector
            .observe("a", CalibrationTensorKind::Activation, 3, 2, &brains(&[0.0; 6]))
            .unwrap_err(),
        CalibrationError::FeatureSizeChanged { before: 2, now: 3 }
    );
}

#[test]
fn decode_rows_are_sampled_up_to_the_limit() {
    let mut collector = CalibrationCollector::new(3);
    collector.observe_last_row("site", 2, &brains(&[9.0, 9.0])).unwrap();
    assert!(collector.decode_samples("site").is_none());
    collector.set_activation_phase(CalibrationPhase::Decode).unwrap();
    for step in 0..20 {
        collector.observe_last_row("site", 2, &brains(&[step as f32, -(step as f32)])).unwrap();
    }
    let samples = collector.decode_samples("site").unwrap();
    assert_eq!((samples.rows, samples.seen, samples.feature_size), (3, 20, 2));
    assert_eq!(samples.values.len(), 6);
    for row in samples.values.chunks(2) {
        assert_eq!(number(row[0]), -number(row[1]));
    }
    // The same stream of rows is sampled the same way.
    let mut kept: Vec<u64> = vec![0, 1, 2];
    for seen in 4u64..=20 {
        let mut random = seen.wrapping_add(0x9e37_79b9_7f4a_7c15);
        random = (random ^ (random >> 30)).wrapping_mul(0xbf58_476d_1ce4_e5b9);
        random = (random ^ (random >> 27)).wrapping_mul(0x94d0_49bb_1331_11eb);
        random ^= random >> 31;
        let place = (random % seen) as usize;
        if place < 3 {
            kept[place] = seen - 1;
        }
    }
    for (row, expected) in samples.values.chunks(2).zip(kept) {
        assert_eq!(number(row[0]), expected as f32);
    }
    assert_eq!(
        collector.observe_last_row("site", 3, &brains(&[0.0; 3])).unwrap_err(),
        CalibrationError::SampleFeatureSizeChanged
    );
    // Batches of rows are not sampled.
    collector.observe("site", CalibrationTensorKind::Activation, 2, 2, &brains(&[0.0; 4])).unwrap();
    assert_eq!(collector.decode_samples("site").unwrap().seen, 20);
}

#[test]
fn sequences_and_contexts_are_counted() {
    let mut collector = CalibrationCollector::new(1);
    collector.record_sequence(7).unwrap();
    collector.record_sequence(3).unwrap();
    assert_eq!(collector.sequence_count(), 2);
    assert_eq!(collector.tokens, 10);
    assert_eq!((collector.min_sequence_tokens, collector.max_sequence_tokens), (3, 7));
    assert_eq!(collector.record_sequence(0).unwrap_err(), CalibrationError::EmptySequence);
    assert_eq!(
        collector.record_sequence(usize::MAX).unwrap_err(),
        CalibrationError::TokenCountOverflow
    );
    collector.record_decode_forward(5).unwrap();
    collector.record_decode_forward(2).unwrap();
    assert_eq!((collector.min_decode_context, collector.max_decode_context), (2, 5));
    assert_eq!(collector.record_decode_forward(0).unwrap_err(), CalibrationError::EmptyContext);
}

fn complete_collector() -> CalibrationCollector {
    let mut collector = CalibrationCollector::new(1);
    let row = brains(&[1.0]);
    for site in 0..77 {
        let name = format!("weight.{site}");
        collector.observe(&name, CalibrationTensorKind::Weight, 1, 1, &row).unwrap();
    }
    for phase in [CalibrationPhase::Decode, CalibrationPhase::Prefill] {
        collector.set_activation_phase(phase).unwrap();
        for site in 0..65 {
            let name = format!("site.{site}");
            collector.observe(&name, CalibrationTensorKind::Activation, 1, 1, &row).unwrap();
        }
    }
    collector
}

#[test]
fn a_calibration_has_to_be_complete() {
    let mut collector = CalibrationCollector::new(1);
    assert_eq!(collector.finish().unwrap_err(), CalibrationError::NoSequences);
    collector.record_sequence(2).unwrap();
    assert_eq!(
        collector.finish().unwrap_err(),
        CalibrationError::PrefillCount { prefills: 0, sequences: 1 }
    );
    collector.record_prefill_forward();
    assert_eq!(collector.finish().unwrap_err(), CalibrationError::NoDecodeObservations);
    collector.record_decode_forward(2).unwrap();
    assert_eq!(
        collector.finish().unwrap_err(),
        CalibrationError::SiteCount { phase: CalibrationPhase::Weight, observed: 0 }
    );
}

#[test]
fn reports_are_ordered_by_phase_and_name() {
    let mut collector = complete_collector();
    collector.record_sequence(2).unwrap();
    collector.record_prefill_forward();
    collector.record_decode_forward(2).unwrap();
    let order = collector.finish().unwrap();
    assert_eq!(order.len(), 207);
    let keys: Vec<(u8, String)> = order
        .iter()
        .map(|index| {
            let entry = &collector.entries[*index];
            let place = match entry.phase {
                CalibrationPhase::Weight => 0,
                CalibrationPhase::Prefill => 1,
                CalibrationPhase::Decode => 2,
            };
            (place, entry.name.clone())
        })
        .collect();
    let mut sorted = keys.clone();
    sorted.sort();
    assert_eq!(keys, sorted);
}

#[test]
fn outliers_are_activations_by_ratio() {
    let tensor = |kind, ratio: Option<f32>| OutlierCandidate {
        kind,
        amax_over_p99_99: ratio.map(|ratio| F32 { bits: ratio.to_bits() }),
    };
    let activation = CalibrationTensorKind::Activation;
    let tensors = vec![
        tensor(activation, Some(2.0)),
        tensor(CalibrationTensorKind::Weight, Some(90.0)),
        tensor(activation, None),
        tensor(activation, Some(7.5)),
        tensor(activation, Some(2.0)),
    ];
    assert_eq!(activation_outliers(&tensors, 10), vec![3, 0, 4, 2]);
    assert_eq!(activation_outliers(&tensors, 2), vec![3, 0]);
}
