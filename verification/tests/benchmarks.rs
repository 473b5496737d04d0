//! Benchmark plans and verdicts.
use lfm25_inference::bf16::Bf16;
use lfm25_inference::cache::KvPageSize;
use lfm25_inference::engine::benchmark::{
    all_rows_agree, benchmark_prompt, check_batched_fp8, check_pair, check_paired_generation,
    check_prefill_benchmark, count_agreeing_rows, cpu_argmax_bf16, decode_precision,
    fp8_runs_first, goodput, interactive_prompt_limit, judge_prompt, kv_bytes_per_token,
    meets_step_limit, next_repetitions, passes_performance, passes_smoke_test, percentile,
    plan_batched_fp8_point, plan_batched_fp8_points, plan_continuous_decode, plan_decode_point,
    plan_decode_points, plan_prefill_point, plan_ragged_validation, separate_points,
    summarize_generation_metrics, unused_positions, BatchedPointPlan, BenchmarkError, DecodePlan,
    PointPlan, PoolCounters, PrefillTiming, PromptVerdict,
};
use lfm25_inference::float::F64;

fn double(value: f64) -> F64 {
    F64 { bits: value.to_bits() }
}

fn brains(values: &[f32]) -> Vec<Bf16> {
    values.iter().map(|value| Bf16 { bits: half::bf16::from_f32(*value).to_bits() }).collect()
}

#[test]
fn decode_benchmarks_are_planned_for_their_largest_point() {
    let plan = plan_continuous_decode(&[1, 8, 4], &[100, 30], 4, 20, 128, KvPageSize::P16);
    assert_eq!(plan, Ok(DecodePlan { maximum_batch: 8, maximum_pages: 64 }));
}

#[test]
fn decode_benchmarks_are_checked_in_order() {
    let plan = |batches: &[usize], contexts: &[usize], measured, limit| {
        plan_continuous_decode(batches, contexts, 4, measured, limit, KvPageSize::P16).unwrap_err()
    };
    assert_eq!(plan(&[], &[], 0, 0), BenchmarkError::NoBatchSizes);
    assert_eq!(plan(&[0], &[], 0, 0), BenchmarkError::NoContexts);
    assert_eq!(plan(&[0], &[1], 0, 0), BenchmarkError::NoMeasuredSteps);
    assert_eq!(plan(&[0], &[1], 1, 0), BenchmarkError::ZeroBatch);
    assert_eq!(plan(&[1], &[usize::MAX], 1, 0), BenchmarkError::LengthOverflow);
    assert_eq!(plan(&[1], &[100], 1, 104), BenchmarkError::LengthExceedsModel);
    assert_eq!(plan(&[usize::MAX], &[100], 1, 105), BenchmarkError::PageCountOverflow);
}

#[test]
fn points_without_memory_are_skipped() {
    assert_eq!(kv_bytes_per_token(6, 8, 64), Ok(12288));
    assert_eq!(kv_bytes_per_token(usize::MAX, 8, 64), Err(BenchmarkError::KvBytesOverflow));
    match plan_decode_point(2, 100, 4, 20, 10, 2480).unwrap() {
        PointPlan::Measure { batch, context, capacity } => {
            assert_eq!((batch, context, capacity), (2, 100, 124))
        }
        PointPlan::Skip(_) => panic!("a point that fits was skipped"),
    }
    match plan_decode_point(2, 100, 4, 20, 10, 2479).unwrap() {
        PointPlan::Skip(point) => {
            assert_eq!((point.batch_size, point.context_tokens), (2, 100));
            assert_eq!((point.required_kv_bytes, point.free_vram_bytes), (2480, 2479));
            assert_eq!(point.reason, "insufficient_free_vram_before_kv_allocation");
        }
        PointPlan::Measure { .. } => panic!("a point that does not fit was planned"),
    }
    assert_eq!(
        plan_decode_point(2, usize::MAX, 4, 20, 10, 0).unwrap_err(),
        BenchmarkError::LengthOverflow
    );
    assert_eq!(
        plan_decode_point(usize::MAX, 100, 4, 20, 10, 0).unwrap_err(),
        BenchmarkError::KvBytesOverflow
    );
}

#[test]
fn every_pair_of_context_and_batch_is_planned_once() {
    let batches = [1, 2, 4, 8, 16];
    let contexts = [16, 128];
    let free = 4 * 152 * 10;
    let plans = plan_decode_points(&batches, &contexts, 4, 20, 10, free).unwrap();
    let pairs: Vec<(usize, usize)> = plans
        .iter()
        .map(|plan| match plan {
            PointPlan::Measure { batch, context, .. } => (*context, *batch),
            PointPlan::Skip(point) => (point.context_tokens, point.batch_size),
        })
        .collect();
    let expected: Vec<(usize, usize)> =
        contexts.iter().flat_map(|c| batches.iter().map(move |b| (*c, *b))).collect();
    assert_eq!(pairs, expected);
    let (measured, skipped) = separate_points(&plans);
    let kept: Vec<(usize, usize, usize)> =
        measured.iter().map(|point| (point.context, point.batch, point.capacity)).collect();
    assert_eq!(
        kept,
        vec![
            (16, 1, 40),
            (16, 2, 40),
            (16, 4, 40),
            (16, 8, 40),
            (128, 1, 152),
            (128, 2, 152),
            (128, 4, 152),
        ]
    );
    let left: Vec<(usize, usize, usize)> = skipped
        .iter()
        .map(|point| (point.context_tokens, point.batch_size, point.required_kv_bytes))
        .collect();
    assert_eq!(left, vec![(16, 16, 6400), (128, 8, 12160), (128, 16, 24320)]);
    assert_eq!(
        plan_decode_points(&[1, usize::MAX], &[16, usize::MAX], 4, 20, 10, free).unwrap_err(),
        BenchmarkError::KvBytesOverflow
    );
    assert_eq!(
        plan_decode_points(&[1], &[16, usize::MAX], 4, 20, 10, free).unwrap_err(),
        BenchmarkError::LengthOverflow
    );
    assert!(plan_decode_points(&[], &contexts, 4, 20, 10, free).unwrap().is_empty());
    let paired = plan_batched_fp8_points(&[1, 2], &[8, 64], 2, 3, 69, KvPageSize::P16).unwrap();
    let point = |batch, context, capacity, pages| BatchedPointPlan {
        batch,
        context,
        capacity,
        pages,
    };
    assert_eq!(
        paired,
        vec![point(1, 8, 13, 1), point(2, 8, 13, 2), point(1, 64, 69, 5), point(2, 64, 69, 10)]
    );
    assert_eq!(
        plan_batched_fp8_points(&[1, 2], &[8, 65], 2, 3, 69, KvPageSize::P16),
        Err(BenchmarkError::LengthExceedsModel)
    );
}

#[test]
fn paired_benchmarks_are_checked() {
    assert_eq!(check_batched_fp8(false, &[1], 1), Err(BenchmarkError::NoPolicy));
    assert_eq!(check_batched_fp8(true, &[], 1), Err(BenchmarkError::NoBatchSizes));
    assert_eq!(check_batched_fp8(true, &[1], 0), Err(BenchmarkError::NoMeasuredSteps));
    assert_eq!(check_batched_fp8(true, &[1, 16, 2], 3), Ok(16));
    assert_eq!(
        plan_batched_fp8_point(4, 60, 2, 3, 65, KvPageSize::P32),
        Ok(BatchedPointPlan { batch: 4, context: 60, capacity: 65, pages: 12 })
    );
    assert_eq!(
        plan_batched_fp8_point(4, 60, 2, 3, 64, KvPageSize::P32),
        Err(BenchmarkError::LengthExceedsModel)
    );
    assert_eq!(
        plan_batched_fp8_point(usize::MAX, 60, 2, 3, 65, KvPageSize::P32),
        Err(BenchmarkError::PageCountOverflow)
    );
    assert_eq!(
        plan_batched_fp8_point(1, usize::MAX, 2, 3, 65, KvPageSize::P32),
        Err(BenchmarkError::LengthOverflow)
    );
    assert_eq!(check_paired_generation(1, 1), Err(BenchmarkError::TooFewTokens));
    assert_eq!(check_paired_generation(2, 0), Err(BenchmarkError::NoMeasuredSteps));
    assert_eq!(check_paired_generation(2, 1), Ok(()));
    assert_eq!(check_pair(5, 5, 5), Ok(()));
    assert_eq!(
        check_pair(5, 4, 5),
        Err(BenchmarkError::StoppedEarly { reference: 5, candidate: 4, requested: 5 })
    );
    let order: Vec<bool> = (0..4).map(fp8_runs_first).collect();
    assert_eq!(order, vec![false, true, false, true]);
}

#[test]
fn prefill_benchmarks_are_checked() {
    assert_eq!(check_prefill_benchmark(&[], 1), Err(BenchmarkError::NoPromptLengths));
    assert_eq!(check_prefill_benchmark(&[1], 0), Err(BenchmarkError::NoMeasuredSteps));
    assert_eq!(check_prefill_benchmark(&[1], 1), Ok(()));
    assert_eq!(plan_prefill_point(33, 64, KvPageSize::P16), Ok(3));
    assert_eq!(
        plan_prefill_point(65, 64, KvPageSize::P16),
        Err(BenchmarkError::InvalidPromptLength { tokens: 65 })
    );
    assert_eq!(
        plan_prefill_point(0, 64, KvPageSize::P16),
        Err(BenchmarkError::InvalidPromptLength { tokens: 0 })
    );
    assert_eq!(plan_ragged_validation(32, 4, KvPageSize::P16), Ok((8, 128)));
    assert_eq!(plan_ragged_validation(32, 1, KvPageSize::P16), Err(BenchmarkError::InvalidShape));
    assert_eq!(plan_ragged_validation(0, 4, KvPageSize::P16), Err(BenchmarkError::InvalidShape));
    assert_eq!(
        plan_ragged_validation(17, usize::MAX, KvPageSize::P16),
        Err(BenchmarkError::PageCountOverflow)
    );
    assert_eq!(
        plan_ragged_validation(16, usize::MAX, KvPageSize::P16),
        Err(BenchmarkError::TokenCountOverflow)
    );
}

#[test]
fn rows_are_compared_by_their_largest_logit() {
    let reference = brains(&[1.0, 5.0, 2.0, 9.0, 9.0, 0.0]);
    let candidate = brains(&[1.0, 5.0, 2.0, 9.5, 9.0, 0.0]);
    assert_eq!(cpu_argmax_bf16(&reference, 0, 3), Some(1));
    assert_eq!(cpu_argmax_bf16(&reference, 3, 3), Some(1));
    assert_eq!(cpu_argmax_bf16(&candidate, 3, 3), Some(0));
    assert_eq!(cpu_argmax_bf16(&candidate, 3, 0), None);
    assert_eq!(count_agreeing_rows(&reference, &candidate, 3, 2), 1);
    assert_eq!(count_agreeing_rows(&reference, &reference, 3, 2), 2);
    assert!(all_rows_agree(&reference[..3], &reference, 1, 2));
    assert!(!all_rows_agree(&candidate[..3], &candidate, 0, 2));
    assert!(all_rows_agree(&candidate[..3], &candidate, 1, 1));
}

#[test]
fn verdicts_hold_measurements_to_their_limits() {
    assert!(meets_step_limit(double(49.999)));
    assert!(!meets_step_limit(double(50.0)) && !meets_step_limit(double(f64::NAN)));
    assert_eq!(goodput(double(120.5), true), double(120.5));
    assert_eq!(goodput(double(120.5), false), double(0.0));
    assert_eq!(decode_precision(true, 4, 4), "selective_e4m3");
    assert_eq!(decode_precision(true, 4, 5), "bf16");
    assert_eq!(decode_precision(false, 4, 1), "bf16");
    assert_eq!(unused_positions(3, KvPageSize::P16, 40), (8, 48));
    assert_eq!(unused_positions(1, KvPageSize::P16, 40), (0, 16));
    assert!(passes_smoke_test(0, double(0.10), double(0.995), double(0.99)));
    assert!(!passes_smoke_test(1, double(0.0), double(1.0), double(1.0)));
    assert!(!passes_smoke_test(0, double(0.1000001), double(1.0), double(1.0)));
    assert!(!passes_smoke_test(0, double(0.0), double(0.9949999), double(1.0)));
    assert!(!passes_smoke_test(0, double(0.0), double(1.0), double(0.9899999)));
    assert!(!passes_smoke_test(0, double(f64::NAN), double(1.0), double(1.0)));
    assert!(passes_performance(double(1.0200001)) && !passes_performance(double(1.02)));
}

#[test]
fn interactive_prompts_are_those_prefilled_in_time() {
    let point = |prompt_tokens, milliseconds| PrefillTiming {
        prompt_tokens,
        wall_p95_ms: double(milliseconds),
    };
    let points = vec![point(32, 3.0), point(4096, 349.9), point(2048, 80.0), point(8192, 350.0)];
    assert_eq!(interactive_prompt_limit(&points), 4096);
    assert_eq!(interactive_prompt_limit(&vec![point(32, 400.0)]), 0);
}

#[test]
fn benchmark_prompts_grow_until_they_are_long_enough() {
    let one = benchmark_prompt(1);
    assert_eq!(
        one,
        "A careful systems benchmark reports workload, hardware, method, and uncertainty. \
         \nWrite the integers from 1 to 1000, separated by commas."
    );
    let three = benchmark_prompt(3);
    assert_eq!(three.len(), one.len() + 2 * 81);
    assert!(three.ends_with(&one));
    assert_eq!(judge_prompt(9, 10, 5, 100), Ok(PromptVerdict::TooShort));
    assert_eq!(judge_prompt(10, 10, 5, 15), Ok(PromptVerdict::LongEnough));
    assert_eq!(judge_prompt(10, 10, 6, 15), Err(BenchmarkError::LengthExceedsModel));
    assert_eq!(judge_prompt(10, 10, usize::MAX, 15), Err(BenchmarkError::LengthOverflow));
    assert_eq!(judge_prompt(10, 0, 6, 15), Err(BenchmarkError::ZeroContext));
    assert_eq!(next_repetitions(3, 2), 4);
    assert_eq!(next_repetitions(3, 9), 9);
}

#[test]
fn distribution_metrics_handle_empty_and_ordered_samples() {
    assert_eq!(percentile(&vec![], 95), None);

    let samples: Vec<F64> = [4.0, 1.0, 3.0, 2.0].iter().map(|value| double(*value)).collect();
    assert_eq!(percentile(&samples, 50), Some(double(3.0)));
    assert_eq!(percentile(&samples, 95), Some(double(4.0)));
}

#[test]
fn percentiles_take_the_nearest_sample() {
    let samples: Vec<F64> = [4.0, 1.0, 3.0, 2.0].iter().map(|value| double(*value)).collect();
    assert_eq!(percentile(&samples, 0), Some(double(1.0)));
    for count in 1..200usize {
        let numbers: Vec<F64> = (0..count).rev().map(|value| double(value as f64)).collect();
        for percent in [50usize, 95, 99] {
            let place = ((count - 1) as f64 * (percent as f64 / 100.0)).round();
            assert_eq!(percentile(&numbers, percent), Some(double(place)));
        }
    }
}

#[test]
fn summaries_add_up_counters() {
    let sample = |base: u64| PoolCounters {
        bf16_hits: base,
        bf16_misses: base + 1,
        fp8_hits: base + 2,
        fp8_misses: base + 3,
        decode_bf16_hits: base + 4,
        decode_bf16_misses: base + 5,
        decode_fp8_hits: base + 6,
        decode_fp8_misses: base + 7,
    };
    let parts = summarize_generation_metrics(
        &vec![sample(1), sample(10)],
        &vec![Some(double(2.0)), Some(double(3.0))],
    )
    .unwrap();
    assert_eq!(parts.counters.bf16_hits, 11);
    assert_eq!(parts.counters.decode_fp8_misses, 25);
    assert_eq!(parts.intervals, vec![double(2.0), double(3.0)]);
    assert_eq!(
        summarize_generation_metrics(&vec![], &vec![]).unwrap_err(),
        BenchmarkError::NoSamples
    );
    assert_eq!(
        summarize_generation_metrics(&vec![sample(1)], &vec![None]).unwrap_err(),
        BenchmarkError::MissingInterval
    );
}
