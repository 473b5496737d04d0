//! How measurements are planned and judged: benchmarks, studies and single products.
use vstd::prelude::*;

use vstd::arithmetic::power2::pow2;

use crate::bf16::Bf16;
use crate::cache::KvPageSize;
use crate::engine::benchmark::{
    benchmark_prompt, check_batched_fp8, check_pair, check_paired_generation,
    check_prefill_benchmark, count_agreeing_rows, cpu_argmax_bf16, decode_precision,
    fp8_runs_first, goodput, interactive_prompt_limit, judge_prompt, kv_bytes_per_token,
    measured_points, meets_step_limit, next_repetitions, passes_performance, passes_smoke_test,
    percentile, plan_batched_fp8_point, plan_continuous_decode, plan_decode_point,
    plan_prefill_point, plan_ragged_validation, separate_points, skipped_points,
    unused_positions, BatchedPointPlan, BenchmarkError, DecodePlan, MeasuredPoint, PointPlan,
    PrefillTiming, PromptVerdict, ServingSkippedPoint,
};
use crate::engine::study::{
    check_calibration, check_enabled, check_sequences, check_validation, copy_with_enabled,
    count_enabled, count_sampled_sequence, first_divergence, passes_quality_gate,
    plan_evaluation, plan_sampled_decodes, single_site_policy, study_verdict, subset_length,
    EvaluationPlan, PointQuality, PolicySearch, SampledDecode, SearchMeasurement, SearchStep,
    StudyError,
};
use crate::float::F64;
use crate::model::fp8_analysis::{
    plan_trials, select_trial, AnalysisError, GemmErrorMetrics, GemmScaleTrial, TrialStrategies,
};
use crate::model::quantization::{Fp8PrecisionPolicy, ScaleStrategy};

verus! {

/// The bits are those of the double nearest to a fraction.
pub open spec fn is_nearest_double(bits: int, numerator: int, denominator: int) -> bool {
    let exponent = bits / 0x10_0000_0000_0000;
    let significand = 0x10_0000_0000_0000 + bits % 0x10_0000_0000_0000;
    let distance = significand * denominator - numerator * pow2((1075 - exponent) as nat);
    &&& 0 < exponent <= 1075
    &&& -denominator <= 2 * distance <= denominator
}

/// The value is a number that is not negative, so that its bits order it.
pub open spec fn is_measure(value: F64) -> bool {
    value.bits <= 0x7ff0_0000_0000_0000
}

/// Decode steps are fast enough below 50 milliseconds, and only then do their tokens count.
pub proof fn steps_have_fifty_milliseconds(time: F64, rate: F64, fast: bool, r: F64)
    requires
        is_measure(time),
        call_ensures(meets_step_limit, (time,), fast),
        call_ensures(goodput, (rate, fast), r),
    ensures
        fast <==> time.bits < 0x4049_0000_0000_0000,
        is_nearest_double(0x4049_0000_0000_0000, 50, 1),
        fast ==> r == rate,
        !fast ==> r.bits == 0,
{
    vstd::arithmetic::power2::lemma2_to64_rest();
}

/// A smoke test is passed if every logit is finite, the relative error is at most a tenth, the
/// cosine at least 0.995, and the rows agree to at least 0.99.
pub proof fn smoke_tests_bound_the_error(
    non_finite: usize,
    error: F64,
    cosine: F64,
    agreement: F64,
    r: bool,
)
    requires
        is_measure(error),
        is_measure(cosine),
        is_measure(agreement),
        call_ensures(passes_smoke_test, (non_finite, error, cosine, agreement), r),
    ensures
        r <==> non_finite == 0 && error.bits <= 0x3fb9_9999_9999_999a && cosine.bits
            >= 0x3fef_d70a_3d70_a3d7 && agreement.bits >= 0x3fef_ae14_7ae1_47ae,
        is_nearest_double(0x3fb9_9999_9999_999a, 1, 10),
        is_nearest_double(0x3fef_d70a_3d70_a3d7, 995, 1000),
        is_nearest_double(0x3fef_ae14_7ae1_47ae, 99, 100),
{
    vstd::arithmetic::power2::lemma2_to64_rest();
}

/// A speed-up is worth having above 1.02.
pub proof fn speedups_are_worth_two_percent(speedup: F64, r: bool)
    requires
        is_measure(speedup),
        call_ensures(passes_performance, (speedup,), r),
    ensures
        r <==> speedup.bits > 0x3ff0_51eb_851e_b852,
        is_nearest_double(0x3ff0_51eb_851e_b852, 102, 100),
{
    vstd::arithmetic::power2::lemma2_to64_rest();
}

/// A prompt is short enough for interactive use if it takes less than 350 milliseconds. The
/// limit is the longest such prompt that was measured, and zero if none was.
pub proof fn interactive_prompts_take_a_third_of_a_second(
    points: &Vec<PrefillTiming>,
    r: usize,
    i: int,
) -> (at: int)
    requires
        call_ensures(interactive_prompt_limit, (points,), r),
        0 <= i < points@.len(),
        forall|k: int| 0 <= k < points@.len() ==> is_measure((#[trigger] points@[k]).wall_p95_ms),
    ensures
        points@[i].wall_p95_ms.bits < 0x4075_e000_0000_0000 ==> points@[i].prompt_tokens <= r,
        is_nearest_double(0x4075_e000_0000_0000, 350, 1),
        r > 0 ==> 0 <= at < points@.len() && points@[at].prompt_tokens == r
            && points@[at].wall_p95_ms.bits < 0x4075_e000_0000_0000,
{
    vstd::arithmetic::power2::lemma2_to64_rest();
    lemma_interactive(points@, points@.len() as int, i)
}

proof fn lemma_interactive(points: Seq<PrefillTiming>, upto: int, i: int) -> (at: int)
    requires
        0 <= upto <= points.len(),
        forall|k: int| 0 <= k < points.len() ==> is_measure((#[trigger] points[k]).wall_p95_ms),
    ensures
        ({
            let r = crate::engine::benchmark::interactive_limit(points, upto);
            &&& r >= 0
            &&& 0 <= i < upto && points[i].wall_p95_ms.bits < 0x4075_e000_0000_0000
                ==> points[i].prompt_tokens <= r
            &&& r > 0 ==> 0 <= at < upto && points[at].prompt_tokens == r
                && points[at].wall_p95_ms.bits < 0x4075_e000_0000_0000
        }),
    decreases upto,
{
    if upto <= 0 {
        0
    } else {
        let earlier = lemma_interactive(points, upto - 1, i);
        assert(is_measure(points[upto - 1].wall_p95_ms));
        let before = crate::engine::benchmark::interactive_limit(points, upto - 1);
        if points[upto - 1].wall_p95_ms.bits < 0x4075_e000_0000_0000
            && points[upto - 1].prompt_tokens > before {
            upto - 1
        } else {
            earlier
        }
    }
}

/// A decode benchmark has room for its largest batch at its longest context, steps included,
/// and no more; it needs a batch, a context and a step, within the model.
pub proof fn decode_benchmarks_have_room(
    batches: &[usize],
    contexts: &[usize],
    warmup: usize,
    steps: usize,
    limit: usize,
    page: KvPageSize,
    r: Result<DecodePlan, BenchmarkError>,
    b: int,
    c: int,
)
    requires
        call_ensures(
            plan_continuous_decode,
            (batches, contexts, warmup, steps, limit, page),
            r,
        ),
        0 <= b < batches@.len(),
        0 <= c < contexts@.len(),
        r is Ok,
    ensures
        ({
            let plan = r->Ok_0;
            &&& batches@[b] <= plan.maximum_batch
            &&& plan.maximum_batch > 0
            &&& steps > 0
            &&& contexts@[c] + warmup + steps <= limit
            &&& batches@[b] * (contexts@[c] + warmup + steps) <= plan.maximum_pages * page.tokens()
        }),
{
    let (batch, context) = choose|batch: usize, context: usize|
        {
            &&& #[trigger] crate::engine::benchmark::is_largest(batches@, batch)
            &&& #[trigger] crate::engine::benchmark::is_largest(contexts@, context)
            &&& r == crate::engine::benchmark::decode_plan(
                batch as int,
                context as int,
                warmup as int,
                steps as int,
                limit as int,
                page.tokens(),
            )
        };
    assert(batches@[b] <= batch);
    assert(contexts@[c] <= context);
    let length = context + warmup + steps;
    let each = crate::num::ceil_div(length, page.tokens());
    crate::num::ceil_div_covers(length, page.tokens());
    let own = contexts@[c] + warmup + steps;
    let small = batches@[b] as int;
    let tokens = page.tokens();
    assert(small * own <= batch * each * tokens) by (nonlinear_arith)
        requires
            0 <= small <= batch,
            0 <= own <= length,
            length <= each * tokens,
    ;
    assert(batch * each * tokens == r->Ok_0.maximum_pages * tokens);
}

/// A token takes a key and a value of two bytes an element in every attention layer.
pub proof fn tokens_take_keys_and_values(
    layers: usize,
    heads: usize,
    width: usize,
    r: Result<usize, BenchmarkError>,
)
    requires
        call_ensures(kv_bytes_per_token, (layers, heads, width), r),
        r is Ok,
    ensures
        r->Ok_0 == 4 * (layers * heads * width),
{
    assert(layers * 2 * heads * width * 2 == 4 * (layers * heads * width)) by (nonlinear_arith);
}

/// A point is measured if the caches of its whole batch fit what is free, and skipped
/// otherwise; either way it is told what it would take.
pub proof fn points_are_measured_if_they_fit(
    batch: usize,
    context: usize,
    warmup: usize,
    steps: usize,
    bytes: usize,
    free: usize,
    r: Result<PointPlan, BenchmarkError>,
)
    requires
        call_ensures(plan_decode_point, (batch, context, warmup, steps, bytes, free), r),
        r is Ok,
    ensures
        ({
            let capacity = context + warmup + steps;
            let needed = batch * capacity * bytes;
            &&& r->Ok_0 is Measure <==> needed <= free
            &&& r->Ok_0 is Measure ==> r->Ok_0->batch == batch && r->Ok_0->context == context
                && r->Ok_0->capacity == capacity
            &&& r->Ok_0 is Skip ==> {
                let skipped = r->Ok_0->Skip_0;
                &&& skipped.batch_size == batch
                &&& skipped.context_tokens == context
                &&& skipped.required_kv_bytes == needed
                &&& skipped.free_vram_bytes == free
            }
        }),
{
}

proof fn lemma_points_kept(plans: Seq<PointPlan>, upto: int, i: int) -> (at: int)
    requires
        0 <= i < upto <= plans.len(),
    ensures
        plans[i] is Measure ==> 0 <= at < measured_points(plans, upto).len() && measured_points(
            plans,
            upto,
        )[at] == (MeasuredPoint {
            batch: plans[i]->batch,
            context: plans[i]->context,
            capacity: plans[i]->capacity,
        }),
        plans[i] is Skip ==> 0 <= at < skipped_points(plans, upto).len() && skipped_points(
            plans,
            upto,
        )[at] == plans[i]->Skip_0,
    decreases upto,
{
    if i == upto - 1 {
        if plans[i] is Measure {
            measured_points(plans, upto - 1).len() as int
        } else {
            skipped_points(plans, upto - 1).len() as int
        }
    } else {
        lemma_points_kept(plans, upto - 1, i)
    }
}

/// Every planned point is measured or skipped, as planned.
pub proof fn no_point_is_lost(
    plans: &Vec<PointPlan>,
    r: (Vec<MeasuredPoint>, Vec<ServingSkippedPoint>),
    i: int,
) -> (at: int)
    requires
        call_ensures(separate_points, (plans,), r),
        0 <= i < plans@.len(),
    ensures
        r.0@.len() + r.1@.len() == plans@.len(),
        plans@[i] is Measure ==> 0 <= at < r.0@.len() && r.0@[at].batch == plans@[i]->batch
            && r.0@[at].context == plans@[i]->context && r.0@[at].capacity == plans@[i]->capacity,
        plans@[i] is Skip ==> 0 <= at < r.1@.len() && r.1@[at] == plans@[i]->Skip_0,
{
    lemma_points_kept(plans@, plans@.len() as int, i)
}

/// A paired point has room for the context and every pair, within the model, in whole pages
/// for each sequence.
pub proof fn paired_points_have_room(
    batch: usize,
    context: usize,
    warmup: usize,
    pairs: usize,
    limit: usize,
    page: KvPageSize,
    r: Result<BatchedPointPlan, BenchmarkError>,
)
    requires
        call_ensures(plan_batched_fp8_point, (batch, context, warmup, pairs, limit, page), r),
    ensures
        r is Ok ==> context + warmup + pairs <= limit,
        limit < context + warmup + pairs <= usize::MAX ==> r is Err && r->Err_0
            == BenchmarkError::LengthExceedsModel,
        r is Ok ==> {
            let plan = r->Ok_0;
            &&& plan.batch == batch
            &&& plan.context == context
            &&& plan.capacity == context + warmup + pairs
            &&& batch * plan.capacity <= plan.pages * page.tokens()
            &&& plan.pages * page.tokens() <= batch * (plan.capacity + page.tokens() - 1)
        },
{
    if r is Ok {
        let capacity = context + warmup + pairs;
        let tokens = page.tokens();
        let each = crate::num::ceil_div(capacity, tokens);
        crate::num::ceil_div_covers(capacity, tokens);
        assert(batch * capacity <= batch * each * tokens && batch * each * tokens <= batch * (
        capacity + tokens - 1)) by (nonlinear_arith)
            requires
                capacity <= each * tokens <= capacity + tokens - 1,
                batch >= 0,
        ;
        assert(batch * each * tokens == r->Ok_0.pages * tokens);
    }
}

/// A paired benchmark needs a policy, a batch and a pair, and prepares for its largest batch.
pub proof fn paired_benchmarks_prepare_for_the_largest(
    enabled: bool,
    batches: &[usize],
    pairs: usize,
    r: Result<usize, BenchmarkError>,
    b: int,
)
    requires
        call_ensures(check_batched_fp8, (enabled, batches, pairs), r),
        0 <= b < batches@.len(),
    ensures
        r is Ok <==> enabled && pairs > 0,
        r is Ok ==> batches@[b] <= r->Ok_0 && batches@.contains(r->Ok_0),
        !enabled ==> r->Err_0 == BenchmarkError::NoPolicy,
        enabled && pairs == 0 ==> r->Err_0 == BenchmarkError::NoMeasuredSteps,
{
}

/// Prompt lengths are measured within the model and take the pages of their tokens.
pub proof fn prompt_lengths_take_their_pages(
    tokens: usize,
    limit: usize,
    page: KvPageSize,
    r: Result<usize, BenchmarkError>,
)
    requires
        call_ensures(plan_prefill_point, (tokens, limit, page), r),
    ensures
        r is Ok <==> 0 < tokens <= limit,
        r is Ok ==> tokens <= r->Ok_0 * page.tokens() < tokens + page.tokens(),
{
    crate::num::ceil_div_covers(tokens as int, page.tokens());
    if 0 < tokens {
        let each = crate::num::ceil_div(tokens as int, page.tokens());
        assert(page.tokens() == 16 || page.tokens() == 32);
        assert(0 <= each <= tokens);
    }
}

/// Benchmarks are made of something: prompts or tokens to run, and steps or pairs to measure.
pub proof fn benchmarks_measure_something(
    lengths: &[usize],
    steps: usize,
    tokens: usize,
    pairs: usize,
    r: Result<(), BenchmarkError>,
    s: Result<(), BenchmarkError>,
)
    requires
        call_ensures(check_prefill_benchmark, (lengths, steps), r),
        call_ensures(check_paired_generation, (tokens, pairs), s),
    ensures
        r is Ok <==> lengths@.len() > 0 && steps > 0,
        s is Ok <==> tokens >= 2 && pairs > 0,
        tokens < 2 ==> s->Err_0 == BenchmarkError::TooFewTokens,
{
}

/// Both generations of a pair have to run to their end.
pub proof fn pairs_run_to_their_end(a: usize, b: usize, asked: usize, r: Result<(), BenchmarkError>)
    requires
        call_ensures(check_pair, (a, b, asked), r),
    ensures
        r is Ok <==> a == asked && b == asked,
        r is Err ==> r->Err_0 == (BenchmarkError::StoppedEarly {
            reference: a,
            candidate: b,
            requested: asked,
        }),
{
}

/// A ragged validation has at least two sequences, all their rows, and pages for each.
pub proof fn validations_are_ragged(
    tokens: usize,
    batch: usize,
    page: KvPageSize,
    r: Result<(usize, usize), BenchmarkError>,
)
    requires
        call_ensures(plan_ragged_validation, (tokens, batch, page), r),
    ensures
        tokens == 0 || batch < 2 <==> r is Err && r->Err_0 == BenchmarkError::InvalidShape,
        r is Ok ==> r->Ok_0.1 == batch * tokens,
        r is Ok ==> batch * tokens <= r->Ok_0.0 * page.tokens() <= batch * (tokens + page.tokens()
            - 1),
{
    if r is Ok {
        let size = page.tokens();
        let each = crate::num::ceil_div(tokens as int, size);
        crate::num::ceil_div_covers(tokens as int, size);
        assert(batch * tokens <= batch * each * size && batch * each * size <= batch * (tokens
            + size - 1)) by (nonlinear_arith)
            requires
                tokens <= each * size <= tokens + size - 1,
                batch >= 0,
        ;
    }
}

/// The largest value of a row is at the place given: none is larger, and no later one equal.
pub proof fn rows_peak_where_they_say(
    values: &[Bf16],
    start: usize,
    width: usize,
    r: Option<usize>,
    other: int,
)
    requires
        call_ensures(cpu_argmax_bf16, (values, start, width), r),
        start + width <= values@.len(),
        0 <= other < width,
        forall|i: int|
            start <= i < start + width ==> (#[trigger] values@[i]).bits < 0x7f80,
    ensures
        r is Some,
        r->0 < width,
        values@[start + other].bits <= values@[start + r->0].bits,
        other > r->0 ==> values@[start + other].bits < values@[start + r->0].bits,
{
    let scores = crate::engine::benchmark::row_scores(values@, start as int, width as int);
    assert(values@[start + other].bits < 0x7f80);
    if r is Some {
        assert(values@[start + r->0].bits < 0x7f80);
        assert(scores[other] == values@[start + other].widened());
        assert(scores[r->0 as int] == values@[start + r->0].widened());
    }
}

/// All rows of equal logits agree.
pub proof fn equal_logits_agree_everywhere(
    logits: &[Bf16],
    width: usize,
    rows: usize,
    r: usize,
    places: Seq<Option<usize>>,
)
    requires
        call_ensures(count_agreeing_rows, (logits, logits, width, rows), r),
        places.len() == rows,
        forall|row: int|
            0 <= row < rows ==> crate::engine::benchmark::is_argmax(
                crate::engine::benchmark::row_scores(logits@, row * width, width as int),
                #[trigger] places[row],
            ),
    ensures
        r == rows,
{
    lemma_equal_logits(logits@, width as int, places, rows as int);
}

proof fn lemma_equal_logits(logits: Seq<Bf16>, width: int, places: Seq<Option<usize>>, upto: int)
    requires
        0 <= upto <= places.len(),
        forall|row: int|
            0 <= row < places.len() ==> crate::engine::benchmark::is_argmax(
                crate::engine::benchmark::row_scores(logits, row * width, width),
                #[trigger] places[row],
            ),
    ensures
        crate::engine::benchmark::agreeing_rows(logits, logits, width, upto) == upto,
    decreases upto,
{
    if upto > 0 {
        lemma_equal_logits(logits, width, places, upto - 1);
        assert(crate::engine::benchmark::is_argmax(
            crate::engine::benchmark::row_scores(logits, (upto - 1) * width, width),
            places[upto - 1],
        ));
        assert(crate::engine::benchmark::rows_agree(logits, logits, width, upto - 1));
    }
}

/// Batches decode in fp8 up to the largest that it is prepared for, and in bf16 beyond.
pub proof fn small_batches_decode_in_fp8(enabled: bool, most: usize, batch: usize, r: &'static str)
    requires
        call_ensures(decode_precision, (enabled, most, batch), r),
    ensures
        enabled && batch <= most ==> r@ == "selective_e4m3"@,
        !enabled || batch > most ==> r@ == "bf16"@,
{
}

/// Positions without a token are all positions less those with one.
pub proof fn unused_positions_are_the_rest(
    pages: usize,
    page: KvPageSize,
    live: usize,
    r: (usize, usize),
)
    requires
        call_ensures(unused_positions, (pages, page, live), r),
        live <= pages * page.tokens(),
    ensures
        r.1 == pages * page.tokens(),
        r.0 + live == r.1,
{
}

/// In every second pair the quantised run comes first.
pub proof fn pairs_take_turns(pair: usize, a: bool, b: bool)
    requires
        pair < usize::MAX,
        call_ensures(fp8_runs_first, (pair,), a),
        call_ensures(fp8_runs_first, ((pair + 1) as usize,), b),
    ensures
        a != b,
        pair == 0 ==> !a,
{
}

/// A longer prompt is the shorter one with its first part once more in front.
pub proof fn prompts_grow_by_their_unit(n: usize, short: String, long: String, unit: String)
    requires
        n < usize::MAX,
        call_ensures(benchmark_prompt, (n,), short),
        call_ensures(benchmark_prompt, ((n + 1) as usize,), long),
        unit@
            == "A careful systems benchmark reports workload, hardware, method, and uncertainty. "@,
    ensures
        long@ == unit@ + short@,
        n == 0 ==> short@ == "\nWrite the integers from 1 to 1000, separated by commas."@,
{
    lemma_repeated(unit@, n as int);
    let suffix = crate::engine::benchmark::prompt_suffix();
    let body = crate::engine::benchmark::repeated_text(unit@, n as int);
    assert((unit@ + body) + suffix =~= unit@ + (body + suffix));
    if n == 0 {
        assert(short@ =~= suffix);
    }
}

proof fn lemma_repeated(unit: Seq<char>, n: int)
    requires
        n >= 0,
    ensures
        crate::engine::benchmark::repeated_text(unit, n + 1) == unit
            + crate::engine::benchmark::repeated_text(unit, n),
    decreases n,
{
    let shorter = crate::engine::benchmark::repeated_text(unit, n);
    if n == 0 {
        assert(crate::engine::benchmark::repeated_text(unit, 1) == shorter + unit);
        assert(shorter + unit =~= unit + shorter);
    } else {
        lemma_repeated(unit, n - 1);
        let least = crate::engine::benchmark::repeated_text(unit, n - 1);
        assert((unit + least) + unit =~= unit + (least + unit));
    }
}

/// A prompt is long enough from its target on, if the answer still fits the model.
pub proof fn prompts_reach_their_target(
    tokens: usize,
    target: usize,
    answer: usize,
    limit: usize,
    r: Result<PromptVerdict, BenchmarkError>,
)
    requires
        call_ensures(judge_prompt, (tokens, target, answer, limit), r),
        target > 0,
    ensures
        r == Ok::<PromptVerdict, BenchmarkError>(PromptVerdict::TooShort) <==> tokens < target,
        r == Ok::<PromptVerdict, BenchmarkError>(PromptVerdict::LongEnough) <==> tokens >= target
            && tokens + answer <= limit,
{
}

/// Repetitions grow at every try, and as far as was estimated.
pub proof fn repetitions_grow(n: usize, estimate: usize, r: usize)
    requires
        call_ensures(next_repetitions, (n, estimate), r),
        n < usize::MAX,
    ensures
        r > n,
        r >= estimate,
        r == n + 1 || r == estimate,
{
}

/// A percentile is one of the samples; there is none of no samples.
pub proof fn percentiles_are_samples(samples: &Vec<F64>, percent: usize, r: Option<F64>) -> (at: int)
    requires
        call_ensures(percentile, (samples, percent), r),
        percent <= 100,
    ensures
        r is None <==> samples@.len() == 0,
        r is Some ==> 0 <= at < samples@.len() && samples@[at] == r->0,
{
    if r is Some {
        let n = samples@.len() as int;
        let place = crate::engine::benchmark::percentile_place(n, percent as int);
        let ranking = choose|ranking: Seq<usize>|
            {
                &&& #[trigger] crate::order::is_ranking(
                    crate::engine::benchmark::sample_keys(samples@),
                    ranking,
                )
                &&& r->0 == samples@[ranking[n - 1 - place] as int]
            };
        assert(0 <= place <= n - 1) by (nonlinear_arith)
            requires
                place == ((n - 1) * percent as int * 2 + 100) / 200,
                n >= 1,
                0 <= percent <= 100,
        ;
        assert(ranking[n - 1 - place] < samples@.len());
        ranking[n - 1 - place] as int
    } else {
        0
    }
}

/// No sample is below the percentile of zero, and none above that of a hundred.
pub proof fn percentiles_span_the_samples(
    samples: &Vec<F64>,
    least: Option<F64>,
    most: Option<F64>,
    i: int,
)
    requires
        call_ensures(percentile, (samples, 0), least),
        call_ensures(percentile, (samples, 100), most),
        0 <= i < samples@.len(),
        forall|k: int| 0 <= k < samples@.len() ==> is_measure(#[trigger] samples@[k]),
    ensures
        least is Some,
        most is Some,
        least->0.bits <= samples@[i].bits <= most->0.bits,
{
    let n = samples@.len() as int;
    let keys = crate::engine::benchmark::sample_keys(samples@);
    assert(crate::engine::benchmark::percentile_place(n, 0) == 0);
    assert(crate::engine::benchmark::percentile_place(n, 100) == n - 1);
    let low = choose|ranking: Seq<usize>|
        #[trigger] crate::order::is_ranking(keys, ranking) && least->0
            == samples@[ranking[n - 1] as int];
    let high = choose|ranking: Seq<usize>|
        #[trigger] crate::order::is_ranking(keys, ranking) && most->0
            == samples@[ranking[0] as int];
    assert(crate::order::ranks_somewhere(low, i));
    assert(crate::order::ranks_somewhere(high, i));
    let a = choose|a: int| 0 <= a < low.len() && #[trigger] low[a] == i;
    let b = choose|b: int| 0 <= b < high.len() && #[trigger] high[b] == i;
    assert(low[n - 1] < keys.len());
    assert(high[0] < keys.len());
    assert(is_measure(samples@[i]));
    assert(is_measure(samples@[low[n - 1] as int]));
    assert(is_measure(samples@[high[0] as int]));
    if a < n - 1 {
        assert(crate::order::ranks_before(keys, low[a] as int, low[n - 1] as int));
    }
    if b > 0 {
        assert(crate::order::ranks_before(keys, high[0] as int, high[b] as int));
    }
    assert(keys[i] == samples@[i].total_order() as i64);
}

/// Of samples in rising order, a percentile is the one at the nearest place to its share of
/// the way from the first to the last.
pub proof fn percentiles_lie_at_their_share(
    samples: &Vec<F64>,
    percent: usize,
    r: Option<F64>,
) -> (place: int)
    requires
        call_ensures(percentile, (samples, percent), r),
        percent <= 100,
        0 < samples@.len() <= usize::MAX,
        forall|k: int| 0 <= k < samples@.len() ==> is_measure(#[trigger] samples@[k]),
        forall|k: int, l: int|
            0 <= k < l < samples@.len() ==> (#[trigger] samples@[k]).bits < (
            #[trigger] samples@[l]).bits,
    ensures
        0 <= place < samples@.len(),
        r == Some(samples@[place]),
        -100 <= 200 * place - 2 * (samples@.len() - 1) * percent <= 100,
{
    let n = samples@.len() as int;
    let keys = crate::engine::benchmark::sample_keys(samples@);
    let place = crate::engine::benchmark::percentile_place(n, percent as int);
    assert(0 <= place <= n - 1 && -100 <= 200 * place - 2 * (n - 1) * percent <= 100)
        by (nonlinear_arith)
        requires
            place == ((n - 1) * percent as int * 2 + 100) / 200,
            n >= 1,
            0 <= percent <= 100,
    ;
    let ranking = choose|ranking: Seq<usize>|
        {
            &&& #[trigger] crate::order::is_ranking(keys, ranking)
            &&& r->0 == samples@[ranking[n - 1 - place] as int]
        };
    let falling = Seq::new(n as nat, |i: int| (n - 1 - i) as usize);
    assert(crate::order::is_ranking(keys, falling)) by {
        assert forall|i: int, j: int| 0 <= i < j < falling.len() implies crate::order::ranks_before(
            keys,
            #[trigger] falling[i] as int,
            #[trigger] falling[j] as int,
        ) by {
            let a = samples@[n - 1 - i];
            let b = samples@[n - 1 - j];
            assert(is_measure(a) && is_measure(b));
            assert(b.bits < a.bits);
        }
        assert forall|p: int| 0 <= p < keys.len() implies #[trigger] crate::order::ranks_somewhere(
            falling,
            p,
        ) by {
            assert(falling[n - 1 - p] == p);
        }
    }
    crate::order::ranking_is_unique(keys, ranking, falling);
    assert(falling[n - 1 - place] == place);
    place
}

/// A study needs sequences, of at least 64 tokens where they are evaluated, within the model.
pub proof fn studies_are_checked(
    sequences: usize,
    tokens: usize,
    evaluated: usize,
    evaluated_tokens: usize,
    limit: usize,
    calibration: Result<(), StudyError>,
    validation: Result<(), StudyError>,
)
    requires
        call_ensures(
            check_calibration,
            (sequences, tokens, evaluated, evaluated_tokens, limit),
            calibration,
        ),
        call_ensures(check_validation, (evaluated, evaluated_tokens, limit), validation),
    ensures
        validation is Ok <==> evaluated > 0 && 64 <= evaluated_tokens <= limit,
        calibration is Ok <==> sequences > 0 && 0 < tokens <= limit && validation is Ok,
        sequences == 0 ==> calibration->Err_0 == StudyError::NoSequences,
        evaluated == 0 ==> validation->Err_0 == StudyError::NoEvaluationSequences,
{
}

/// All sequences asked for have to be there, and a policy has to enable something.
pub proof fn studies_have_something_to_judge(
    found: usize,
    wanted: usize,
    sites: usize,
    r: Result<(), StudyError>,
    s: Result<usize, StudyError>,
)
    requires
        call_ensures(check_sequences, (found, wanted), r),
        call_ensures(check_enabled, (sites,), s),
    ensures
        r is Ok <==> found == wanted,
        s is Ok <==> sites > 0,
        s is Ok ==> s->Ok_0 == sites,
{
}

/// Sampled steps are those at the sampled positions, and between two of them every token is
/// passed over once.
pub proof fn sampled_steps_pass_over_the_rest(
    tokens: usize,
    requested: usize,
    r: Vec<SampledDecode>,
    i: int,
)
    requires
        call_ensures(plan_sampled_decodes, (tokens, requested), r),
        0 <= i < r@.len(),
        tokens <= 0x1_0000,
    ensures
        r@.len() <= requested,
        r@.len() < tokens,
        r@[i].skip_from <= r@[i].position < tokens,
        i == 0 ==> r@[i].skip_from == 0,
        i > 0 ==> r@[i].skip_from == r@[i - 1].position + 1,
        i == r@.len() - 1 ==> r@[i].position == tokens - 1,
        r@.len() == requested || r@.len() == tokens - 1,
{
    crate::engine::corpus::sample_positions_are_spread(tokens as int, requested as int, i);
    if i > 0 {
        crate::engine::corpus::sample_positions_are_spread(
            tokens as int,
            requested as int,
            i - 1,
        );
    }
}

/// An evaluation feeds every token but the last, and captures at most eight rows, the last of
/// them at the last input.
pub proof fn evaluations_feed_all_but_the_last(
    tokens: usize,
    sofar: usize,
    r: Result<EvaluationPlan, StudyError>,
)
    requires
        call_ensures(plan_evaluation, (tokens, sofar), r),
        sofar + tokens <= usize::MAX,
    ensures
        r is Ok <==> tokens >= 2,
        r is Ok ==> {
            let plan = r->Ok_0;
            &&& plan.inputs == tokens - 1
            &&& plan.source_tokens == sofar + tokens
            &&& plan.captured@.len() <= 8
            &&& tokens > 2 ==> plan.captured@.len() > 0 && plan.captured@.last() == tokens - 2
        },
{
    if r is Ok && tokens > 2 {
        let count = crate::engine::corpus::sample_count(tokens - 1, 8);
        crate::engine::corpus::sample_positions_are_spread(tokens - 1, 8, count - 1);
    }
}

/// Sampled evaluations count the tokens of sequences of three and more.
pub proof fn sampled_sequences_are_counted(tokens: usize, sofar: usize, r: Result<usize, StudyError>)
    requires
        call_ensures(count_sampled_sequence, (tokens, sofar), r),
        sofar + tokens <= usize::MAX,
    ensures
        r is Ok <==> tokens >= 3,
        r is Ok ==> r->Ok_0 == sofar + tokens,
{
}

/// A policy keeps the quality if every logit is finite and the loss grows by at most a
/// hundredth, and no point drifts: every value finite, an error of at most a tenth, and a
/// cosine of at least 0.99.
pub proof fn quality_is_kept_within_bounds(
    non_finite: u64,
    loss: F64,
    points: &Vec<PointQuality>,
    r: bool,
)
    requires
        call_ensures(passes_quality_gate, (non_finite, loss, points), r),
        is_measure(loss),
        forall|i: int|
            0 <= i < points@.len() ==> is_measure((#[trigger] points@[i]).nrmse) && is_measure(
                points@[i].cosine,
            ),
    ensures
        r <==> non_finite == 0 && loss.bits <= 0x3f84_7ae1_47ae_147b && forall|i: int|
            0 <= i < points@.len() ==> {
                &&& (#[trigger] points@[i]).non_finite_values == 0
                &&& points@[i].nrmse.bits <= 0x3fb9_9999_9999_999a
                &&& points@[i].cosine.bits >= 0x3fef_ae14_7ae1_47ae
            },
        is_nearest_double(0x3f84_7ae1_47ae_147b, 1, 100),
        is_nearest_double(0x3fb9_9999_9999_999a, 1, 10),
        is_nearest_double(0x3fef_ae14_7ae1_47ae, 99, 100),
{
    vstd::arithmetic::power2::lemma2_to64_rest();
    if crate::engine::study::none_drifted(points@) {
        assert forall|i: int| 0 <= i < points@.len() implies {
            &&& (#[trigger] points@[i]).non_finite_values == 0
            &&& points@[i].nrmse.bits <= 0x3fb9_9999_9999_999a
            &&& points@[i].cosine.bits >= 0x3fef_ae14_7ae1_47ae
        } by {
            assert(!points@[i].drifted());
        }
    } else {
        let i = choose|i: int| 0 <= i < points@.len() && (#[trigger] points@[i]).drifted();
        assert(points@[i].drifted());
    }
}

/// The search keeps a site if every logit is finite, the loss grows by at most 0.005, the
/// divergence is at most 0.05, the error of the last hidden row at most 0.12, and its cosine
/// at least 0.985.
pub proof fn searches_keep_sites_within_bounds(measured: &SearchMeasurement, r: bool)
    requires
        call_ensures(SearchMeasurement::is_accepted, (measured,), r),
        is_measure(measured.relative_nll_delta),
        is_measure(measured.mean_logit_kl),
        is_measure(measured.final_hidden_nrmse),
        is_measure(measured.final_hidden_cosine),
    ensures
        r <==> measured.non_finite_logits == 0 && measured.relative_nll_delta.bits
            <= 0x3f74_7ae1_47ae_147b && measured.mean_logit_kl.bits <= 0x3fa9_9999_9999_999a
            && measured.final_hidden_nrmse.bits <= 0x3fbe_b851_eb85_1eb8
            && measured.final_hidden_cosine.bits >= 0x3fef_851e_b851_eb85,
        is_nearest_double(0x3f74_7ae1_47ae_147b, 5, 1000),
        is_nearest_double(0x3fa9_9999_9999_999a, 5, 100),
        is_nearest_double(0x3fbe_b851_eb85_1eb8, 12, 100),
        is_nearest_double(0x3fef_851e_b851_eb85, 985, 1000),
{
    vstd::arithmetic::power2::lemma2_to64_rest();
}

/// A copy of a policy has the sites and scales of the policy, and enables just what it is
/// told to.
pub proof fn copies_keep_their_scales(
    policy: &Fp8PrecisionPolicy,
    name: String,
    flags: &Vec<bool>,
    r: Fp8PrecisionPolicy,
    i: int,
)
    requires
        call_ensures(copy_with_enabled, (policy, name, flags), r),
        0 <= i < policy@.sites.len(),
    ensures
        r@.name == name@,
        r@.schema_version == policy@.schema_version,
        r@.source == policy@.source,
        r@.decode_only == policy@.decode_only,
        r@.sites.len() == policy@.sites.len(),
        r@.sites[i].site == policy@.sites[i].site,
        r@.sites[i].enabled == flags@[i],
        r@.sites[i].scales == policy@.sites[i].scales,
{
}

/// The policy of a single site enables that site and no other, and is named after it.
pub proof fn single_sites_stand_alone(
    base: &Fp8PrecisionPolicy,
    index: usize,
    r: Fp8PrecisionPolicy,
    i: int,
)
    requires
        call_ensures(single_site_policy, (base, index), r),
        index < base@.sites.len(),
        0 <= i < base@.sites.len(),
    ensures
        r@.sites.len() == base@.sites.len(),
        r@.sites[i].enabled <==> i == index,
        r@.sites[i].site == base@.sites[i].site,
        r@.sites[i].scales == base@.sites[i].scales,
        r@.name == "single_site_"@ + base@.sites[index as int].site,
{
}

/// A subset is no longer than it may be, nor than there is.
pub proof fn subsets_are_bounded(sequences: usize, most: usize, r: usize)
    requires
        call_ensures(subset_length, (sequences, most), r),
    ensures
        r <= sequences,
        r <= most,
        r == sequences || r == most,
{
}

/// A search begins with nothing enabled, and tries the candidates with larger scores first.
pub proof fn searches_begin_with_nothing(
    base: &Fp8PrecisionPolicy,
    candidates: Vec<String>,
    scores: &Vec<F64>,
    r: PolicySearch,
    site: int,
    i: int,
    j: int,
)
    requires
        call_ensures(PolicySearch::begin, (base, candidates, scores), r),
        candidates@.len() == scores@.len(),
        0 <= site < base@.sites.len(),
        0 <= i < j < r.ranked@.len(),
        forall|k: int| 0 <= k < scores@.len() ==> is_measure(#[trigger] scores@[k]),
    ensures
        !r.selected@.sites[site].enabled,
        r.selected@.sites[site].site == base@.sites[site].site,
        r.selected@.sites[site].scales == base@.sites[site].scales,
        r.selected@.name == "policy_auto_selective"@,
        r.steps@.len() == 0,
        r.trying is None,
        r.ranked@.len() == candidates@.len(),
        scores@[r.ranked@[i] as int].bits >= scores@[r.ranked@[j] as int].bits,
        scores@[r.ranked@[i] as int].bits == scores@[r.ranked@[j] as int].bits ==> r.ranked@[i]
            < r.ranked@[j],
{
    let keys = crate::engine::study::score_keys(scores@);
    let a = r.ranked@[i] as int;
    let b = r.ranked@[j] as int;
    assert(crate::order::is_ranking(keys, r.ranked@));
    assert(r.ranked@[i] < keys.len() && r.ranked@[j] < keys.len());
    assert(crate::order::ranks_before(keys, a, b));
    assert(is_measure(scores@[a]) && is_measure(scores@[b]));
}

/// Trying a candidate enables its site, the first of its name, and no other; when all have
/// been tried nothing more is.
pub proof fn trials_enable_one_site(
    search: &mut PolicySearch,
    r: Result<Option<usize>, StudyError>,
    site: int,
)
    requires
        call_ensures(PolicySearch::try_next, (search,), r),
        old(search).steps@.len() <= old(search).ranked@.len(),
        old(search).selected@.sites.len() <= usize::MAX,
        0 <= site < old(search).selected@.sites.len(),
    ensures
        ({
            let tried = old(search).steps@.len() as int;
            let was = old(search).selected@.sites;
            let now = final(search).selected@.sites;
            &&& tried == old(search).ranked@.len() ==> r == Ok::<Option<usize>, StudyError>(None)
            &&& r is Ok && r->Ok_0 is Some ==> {
                let candidate = r->Ok_0->0;
                let name = old(search).candidates@[candidate as int]@;
                let place = final(search).trying->0 as int;
                &&& tried < old(search).ranked@.len()
                &&& candidate == old(search).ranked@[tried]
                &&& final(search).trying is Some
                &&& place < was.len()
                &&& was[place].site == name
                &&& now.len() == was.len()
                &&& now[place].enabled
                &&& site != place ==> now[site] == was[site]
                &&& now[site].scales == was[site].scales
            }
            &&& !(r is Ok && r->Ok_0 is Some) ==> final(search).selected@
                == old(search).selected@ && final(search).trying is None
            &&& final(search).steps@ == old(search).steps@
        }),
{
    let tried = old(search).steps@.len() as int;
    if tried != old(search).ranked@.len() {
        let before = old(search).selected@;
        let candidate = old(search).ranked@[tried];
        let place = choose|place: int|
            {
                &&& #[trigger] crate::engine::study::is_site_place(
                    before.sites,
                    old(search).candidates@[candidate as int]@,
                    place,
                )
                &&& if place == before.sites.len() {
                    &&& r == Err::<Option<usize>, StudyError>(StudyError::MissingSite)
                    &&& final(search).selected@ == before
                    &&& final(search).trying is None
                } else {
                    &&& r == Ok::<Option<usize>, StudyError>(Some(candidate))
                    &&& final(search).selected@ == crate::engine::study::with_site(
                        before,
                        place,
                        true,
                    )
                    &&& final(search).trying == Some(place as usize)
                }
            };
        assert(0 <= place <= before.sites.len());
    }
}

/// Concluding a trial keeps the site enabled exactly if its measurement is accepted, and
/// leaves all others as they are.
pub proof fn conclusions_keep_what_was_accepted(
    search: &mut PolicySearch,
    measured: SearchMeasurement,
    r: SearchStep,
    accepted: bool,
    site: int,
)
    requires
        call_ensures(PolicySearch::conclude, (search, measured), r),
        call_ensures(SearchMeasurement::is_accepted, (&measured,), accepted),
        old(search).trying is Some,
        old(search).trying->0 < old(search).selected@.sites.len(),
        0 <= site < old(search).selected@.sites.len(),
    ensures
        ({
            let place = old(search).trying->0 as int;
            let was = old(search).selected@.sites;
            let now = final(search).selected@.sites;
            &&& r.accepted == accepted
            &&& r.site == place
            &&& now.len() == was.len()
            &&& now[place].enabled == accepted
            &&& site != place ==> now[site] == was[site]
            &&& now[site].scales == was[site].scales
            &&& final(search).trying is None
            &&& final(search).steps@ == old(search).steps@.push(r)
        }),
{
}

/// A search ends with the policy that it selected, if that enables anything.
pub proof fn searches_end_with_their_selection(
    search: PolicySearch,
    r: Result<Fp8PrecisionPolicy, StudyError>,
    site: int,
)
    requires
        call_ensures(PolicySearch::finish, (search,), r),
        0 <= site < search.selected@.sites.len(),
    ensures
        search.selected@.sites[site].enabled ==> r is Ok,
        r is Ok ==> r->Ok_0@ == search.selected@,
        r is Err ==> r->Err_0 == StudyError::EverySiteRejected,
        (forall|i: int|
            0 <= i < search.selected@.sites.len() ==> !(
            #[trigger] search.selected@.sites[i]).enabled) ==> r is Err,
{
    let sites = search.selected@.sites;
    lemma_enabled(sites, sites.len() as int, site);
    if forall|i: int| 0 <= i < sites.len() ==> !(#[trigger] sites[i]).enabled {
        lemma_none_enabled(sites, sites.len() as int);
    }
}

proof fn lemma_enabled(
    sites: Seq<crate::model::quantization::SitePolicyView>,
    upto: int,
    site: int,
)
    requires
        0 <= upto <= sites.len(),
    ensures
        crate::engine::study::enabled_count(sites, upto) >= 0,
        0 <= site < upto && sites[site].enabled ==> crate::engine::study::enabled_count(sites, upto)
            > 0,
    decreases upto,
{
    if upto > 0 {
        lemma_enabled(sites, upto - 1, site);
    }
}

proof fn lemma_none_enabled(sites: Seq<crate::model::quantization::SitePolicyView>, upto: int)
    requires
        0 <= upto <= sites.len(),
        forall|i: int| 0 <= i < sites.len() ==> !(#[trigger] sites[i]).enabled,
    ensures
        crate::engine::study::enabled_count(sites, upto) == 0,
    decreases upto,
{
    if upto > 0 {
        lemma_none_enabled(sites, upto - 1);
        assert(!sites[upto - 1].enabled);
    }
}

/// Switching a site on or off changes the count of enabled sites by just that site.
pub proof fn enabled_sites_are_counted_one_by_one(
    policy: &Fp8PrecisionPolicy,
    less: &Fp8PrecisionPolicy,
    r: usize,
    s: usize,
    place: int,
)
    requires
        call_ensures(count_enabled, (policy,), r),
        call_ensures(count_enabled, (less,), s),
        0 <= place < policy@.sites.len() == less@.sites.len(),
        policy@.sites[place].enabled,
        !less@.sites[place].enabled,
        forall|i: int|
            0 <= i < policy@.sites.len() && i != place ==> (
            #[trigger] less@.sites[i]).enabled == policy@.sites[i].enabled,
    ensures
        r == s + 1,
{
    lemma_one_less(policy@.sites, less@.sites, policy@.sites.len() as int, place);
}

proof fn lemma_one_less(
    more: Seq<crate::model::quantization::SitePolicyView>,
    less: Seq<crate::model::quantization::SitePolicyView>,
    upto: int,
    place: int,
)
    requires
        0 <= upto <= more.len() == less.len(),
        0 <= place < more.len(),
        more[place].enabled,
        !less[place].enabled,
        forall|i: int|
            0 <= i < more.len() && i != place ==> (#[trigger] less[i]).enabled == more[i].enabled,
    ensures
        crate::engine::study::enabled_count(more, upto) == crate::engine::study::enabled_count(
            less,
            upto,
        ) + (if place < upto {
            1int
        } else {
            0
        }),
    decreases upto,
{
    if upto > 0 {
        lemma_one_less(more, less, upto - 1, place);
        if place != upto - 1 {
            assert(less[upto - 1].enabled == more[upto - 1].enabled);
        }
    }
}

/// A study passes if it selected a policy.
pub proof fn studies_pass_with_a_policy(selected: Option<usize>, r: &'static str)
    requires
        call_ensures(study_verdict, (selected,), r),
    ensures
        selected is Some ==> r@ == "quality_gate_pass"@,
        selected is None ==> r@ == "quality_gate_reject_all"@,
{
}

/// Two answers diverge where they first differ, or where one of them ends; equal answers
/// nowhere.
pub proof fn answers_diverge_at_the_first_difference(a: &Vec<u32>, b: &Vec<u32>, r: Option<usize>)
    requires
        call_ensures(first_divergence, (a, b), r),
    ensures
        r is None <==> a@ == b@,
        r is Some ==> {
            let place = r->0 as int;
            &&& place <= a@.len() && place <= b@.len()
            &&& a@.take(place) == b@.take(place)
            &&& place < a@.len() && place < b@.len() ==> a@[place] != b@[place]
        },
{
    if r is Some {
        let place = r->0 as int;
        assert(a@.take(place) =~= b@.take(place));
        if a@ == b@ && place < a@.len() {
            assert(a@[place] == b@[place]);
        }
    }
}

/// A product passes its screen if every output is finite, the cosine is at least 0.995 and
/// the relative error at most a tenth.
pub proof fn products_pass_within_bounds(metrics: GemmErrorMetrics, r: bool)
    requires
        call_ensures(GemmErrorMetrics::passes_local_screen, (metrics,), r),
        is_measure(metrics.nrmse),
        is_measure(metrics.cosine),
    ensures
        r <==> metrics.non_finite_values == 0 && metrics.cosine.bits >= 0x3fef_d70a_3d70_a3d7
            && metrics.nrmse.bits <= 0x3fb9_9999_9999_999a,
        is_nearest_double(0x3fef_d70a_3d70_a3d7, 995, 1000),
        is_nearest_double(0x3fb9_9999_9999_999a, 1, 10),
{
    vstd::arithmetic::power2::lemma2_to64_rest();
}

/// Every pair of strategies is tried once, on samples that fit the weight.
pub proof fn every_pair_of_strategies_is_tried(
    rows: usize,
    features: usize,
    columns: usize,
    r: Result<Vec<TrialStrategies>, AnalysisError>,
    weight: ScaleStrategy,
    activation: ScaleStrategy,
) -> (at: int)
    requires
        call_ensures(plan_trials, (rows, features, columns), r),
    ensures
        r is Ok <==> rows > 0 && columns == features,
        rows == 0 ==> r->Err_0 == AnalysisError::NoSamples,
        rows > 0 && columns != features ==> r->Err_0 == AnalysisError::ShapeMismatch,
        r is Ok ==> {
            &&& r->Ok_0@.len() == 9
            &&& 0 <= at < 9
            &&& r->Ok_0@[at].weight == weight
            &&& r->Ok_0@[at].activation == activation
        },
{
    let a = strategy_place(weight);
    let b = strategy_place(activation);
    assert((3 * a + b) / 3 == a && (3 * a + b) % 3 == b);
    3 * a + b
}

spec fn strategy_place(strategy: ScaleStrategy) -> int {
    match strategy {
        ScaleStrategy::Amax => 0,
        ScaleStrategy::P99_99 => 1,
        ScaleStrategy::P99_9 => 2,
    }
}

/// The trial that is used passed its screen, and no other that passed has a smaller error; of
/// those with the same error none has a larger cosine.
pub proof fn the_best_trial_is_used(trials: &Vec<GemmScaleTrial>, r: Option<usize>, other: int)
    requires
        call_ensures(select_trial, (trials,), r),
        r is Some,
        0 <= other < trials@.len(),
        trials@[other].passes_local_screen,
        is_measure(trials@[other].metrics.nrmse),
        is_measure(trials@[other].metrics.cosine),
        is_measure(trials@[r->0 as int].metrics.nrmse),
        is_measure(trials@[r->0 as int].metrics.cosine),
    ensures
        r->0 < trials@.len(),
        trials@[r->0 as int].passes_local_screen,
        trials@[r->0 as int].metrics.nrmse.bits <= trials@[other].metrics.nrmse.bits,
        trials@[r->0 as int].metrics.nrmse.bits == trials@[other].metrics.nrmse.bits
            ==> trials@[r->0 as int].metrics.cosine.bits >= trials@[other].metrics.cosine.bits,
{
    assert(crate::model::fp8_analysis::is_selected(trials@, r->0 as int));
    assert(!crate::model::fp8_analysis::is_better(
        trials@[other].metrics,
        trials@[r->0 as int].metrics,
    ));
}

} // verus!
