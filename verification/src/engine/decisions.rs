//! What each step of an admission decides, and what benchmarks cover.
use vstd::prelude::*;

use crate::bf16::Bf16;
use crate::cache::KvPageSize;
use crate::engine::admission::{
    Admission, AdmissionAction, AdmissionStage, LatencyForecast, Refusal, ServingError,
};
use crate::engine::benchmark::{
    all_rows_agree, cpu_argmax_bf16, grid_holds_every_pair_once, is_argmax, plan_batched_fp8_point,
    plan_batched_fp8_points, plan_decode_point, plan_decode_points, pool_totals,
    row_agrees_with, row_scores, summarize_generation_metrics, BatchedPointPlan, BenchmarkError,
    PointPlan, PoolCounters, SummaryParts,
};
use crate::engine::config::{ConfigError, ContinuousEngineConfig};
use crate::engine::owner::{OwnerLoop, OwnerPhase};
use crate::float::F64;
use crate::scheduler::{
    HardwareCostModel, RequestPhase, RequestSlotId, RequestState, SchedulerConfig,
};

verus! {

/// After the lookup only the rest of the prompt is to be run, and a miss leaves all of it.
pub proof fn found_prefixes_shorten_the_prompt(
    admission: &mut Admission,
    hit: Option<usize>,
    r: AdmissionAction,
)
    requires
        call_ensures(Admission::prefix_found, (admission, hit), r),
    ensures
        r is Forecast,
        hit is None ==> r->remaining_prompt == old(admission).prompt_tokens,
        hit is Some && hit->Some_0 <= old(admission).prompt_tokens ==> r->remaining_prompt
            + hit->Some_0 == old(admission).prompt_tokens,
        hit is Some && hit->Some_0 > old(admission).prompt_tokens ==> r->remaining_prompt == 0,
        final(admission).prefix_hit == (hit is Some),
        hit is Some ==> final(admission).prefix_tokens == hit->Some_0,
        hit is None ==> final(admission).prefix_tokens == 0,
        final(admission).stage == AdmissionStage::Forecasting,
        final(admission).prompt_tokens == old(admission).prompt_tokens,
        final(admission).total_tokens == old(admission).total_tokens,
        final(admission).page_size == old(admission).page_size,
        final(admission).slot == old(admission).slot,
{
}

/// A forecast within all limits goes on to a slot; any other ends the admission with the
/// limit that it breaks, and nothing has been taken yet.
pub proof fn forecasts_decide_about_slots(
    admission: &mut Admission,
    forecast: LatencyForecast,
    r: AdmissionAction,
)
    requires
        call_ensures(Admission::forecast, (admission, forecast), r),
        old(admission).well_formed(),
        old(admission).stage == AdmissionStage::Forecasting,
        !forecast.decode_ms.nan(),
        !forecast.step_budget_ms.nan(),
        !forecast.decode_us.nan(),
        !forecast.tpot_slo_us.nan(),
        !forecast.first_token_ms.nan(),
        !forecast.ttft_slo_ms.nan(),
    ensures
        ({
            let steady = forecast.decode_ms.order() < forecast.step_budget_ms.order()
                && forecast.decode_us.order() < forecast.tpot_slo_us.order();
            let prompt = forecast.first_token_ms.order() < forecast.ttft_slo_ms.order();
            &&& steady && prompt ==> r == AdmissionAction::AcquireSlot
            &&& !steady ==> r == (AdmissionAction::Refuse {
                reason: Refusal::DecodeLatency,
                release_pages: false,
                release_slot: false,
            })
            &&& steady && !prompt ==> r == (AdmissionAction::Refuse {
                reason: Refusal::FirstTokenLatency,
                release_pages: false,
                release_slot: false,
            })
            &&& r is Refuse ==> final(admission).stage == AdmissionStage::Ended
            &&& r is AcquireSlot ==> final(admission).stage == AdmissionStage::AcquiringSlot
        }),
        final(admission).prompt_tokens == old(admission).prompt_tokens,
        final(admission).total_tokens == old(admission).total_tokens,
        final(admission).page_size == old(admission).page_size,
        final(admission).prefix_hit == old(admission).prefix_hit,
        final(admission).prefix_tokens == old(admission).prefix_tokens,
{
}

/// With a slot the request asks for pages: as many as hold all of its tokens together with
/// the shared ones, and not one more. Without a slot it is refused, and holds nothing.
pub proof fn slots_ask_for_enough_pages(
    admission: &mut Admission,
    slot: Option<RequestSlotId>,
    r: AdmissionAction,
)
    requires
        call_ensures(Admission::slot_acquired, (admission, slot), r),
        old(admission).well_formed(),
        old(admission).stage == AdmissionStage::AcquiringSlot,
    ensures
        slot is None ==> r == (AdmissionAction::Refuse {
            reason: Refusal::SlotsExhausted,
            release_pages: false,
            release_slot: false,
        }) && final(admission).stage == AdmissionStage::Ended,
        slot is Some ==> {
            let page = old(admission).page_size.tokens();
            let shared = old(admission).prefix_tokens as int / page;
            &&& r is ReservePages
            &&& r->ReservePages_slot == slot->Some_0
            &&& (r->ReservePages_pages + shared) * page >= old(admission).total_tokens
            &&& r->ReservePages_pages > 0 ==> (r->ReservePages_pages - 1 + shared) * page < old(
                admission,
            ).total_tokens
            &&& final(admission).stage == AdmissionStage::ReservingPages
            &&& final(admission).slot == slot
        },
        final(admission).total_tokens == old(admission).total_tokens,
        final(admission).prefix_hit == old(admission).prefix_hit,
        final(admission).prefix_tokens == old(admission).prefix_tokens,
        final(admission).page_size == old(admission).page_size,
{
    if slot is Some {
        let before = *old(admission);
        let page = before.page_size.tokens();
        let total = before.total_tokens as int;
        let all = crate::num::ceil_div(total, page);
        let shared = before.prefix_tokens as int / page;
        let pages = r->ReservePages_pages as int;
        crate::num::ceil_div_covers(total, page);
        assert((all - 1) * page == all * page - page) by (nonlinear_arith);
        if all <= shared {
            assert(shared * page >= all * page) by (nonlinear_arith)
                requires
                    shared >= all,
                    page > 0,
            ;
        }
    }
}

/// Granted pages are used at once: with a prefix the slot shares it first, without one the
/// request is installed. Denied pages end the admission and give the slot back.
pub proof fn granted_pages_are_used(admission: &mut Admission, granted: bool, r: AdmissionAction)
    requires
        call_ensures(Admission::reservation_done, (admission, granted), r),
        old(admission).well_formed(),
        old(admission).stage == AdmissionStage::ReservingPages,
    ensures
        !granted ==> r == (AdmissionAction::Refuse {
            reason: Refusal::PagesUnavailable,
            release_pages: false,
            release_slot: true,
        }) && final(admission).stage == AdmissionStage::Ended,
        granted && old(admission).prefix_hit ==> {
            &&& r is InitializeAndAttach
            &&& r->InitializeAndAttach_slot == old(admission).slot->Some_0
            &&& r->InitializeAndAttach_capacity == old(admission).total_tokens
            &&& r->tokens == old(admission).prefix_tokens
            &&& final(admission).stage == AdmissionStage::AttachingPrefix
            &&& final(admission).pages_reserved
            &&& final(admission).slot == old(admission).slot
        },
        granted && !old(admission).prefix_hit ==> {
            &&& r is InitializeAndInstall
            &&& r->InitializeAndInstall_slot == old(admission).slot->Some_0
            &&& r->InitializeAndInstall_capacity == old(admission).total_tokens
            &&& final(admission).stage == AdmissionStage::Ended
        },
        final(admission).prefix_tokens == old(admission).prefix_tokens,
{
}

/// The pages that a slot is initialised with are those that were asked for.
pub proof fn granted_pages_are_those_asked_for(
    admission: &mut Admission,
    slot: RequestSlotId,
    asked: AdmissionAction,
    after: &mut Admission,
    r: AdmissionAction,
)
    requires
        call_ensures(Admission::slot_acquired, (admission, Some(slot)), asked),
        call_ensures(Admission::reservation_done, (after, true), r),
        old(after).total_tokens == old(admission).total_tokens,
        old(after).prefix_tokens == old(admission).prefix_tokens,
        old(after).page_size == old(admission).page_size,
    ensures
        asked is ReservePages,
        old(after).prefix_hit ==> r->InitializeAndAttach_pages == asked->ReservePages_pages,
        !old(after).prefix_hit ==> r->InitializeAndInstall_pages == asked->ReservePages_pages,
{
}

/// A request whose prefix was attached is installed with it; otherwise both its pages and its
/// slot go back. Either way the admission is over.
pub proof fn attached_requests_are_installed(
    admission: &mut Admission,
    attached: bool,
    r: AdmissionAction,
)
    requires
        call_ensures(Admission::attach_done, (admission, attached), r),
        old(admission).well_formed(),
        old(admission).stage == AdmissionStage::AttachingPrefix,
    ensures
        attached ==> r == (AdmissionAction::Install {
            slot: old(admission).slot->Some_0,
            prefilled: old(admission).prefix_tokens,
        }),
        !attached ==> r == (AdmissionAction::Refuse {
            reason: Refusal::PrefixUnavailable,
            release_pages: true,
            release_slot: true,
        }),
        final(admission).stage == AdmissionStage::Ended,
        final(admission).slot is None,
        !final(admission).pages_reserved,
{
}

/// What a refused client reads.
pub proof fn refusals_are_worded(reason: Refusal, detail: &str, bound: &str, r: ServingError)
    requires
        call_ensures(Refusal::answer, (reason, detail, bound), r),
    ensures
        reason == Refusal::NotGreedy ==> r.message@
            == "continuous path currently requires greedy sampling"@,
        reason == Refusal::SequenceCapacity ==> r.message@
            == "request exceeds configured sequence capacity"@,
        reason == Refusal::DecodeLatency ==> r.message@
            == "admission rejected: predicted decode p95 "@ + detail@
            + " ms exceeds latency budget"@,
        reason == Refusal::FirstTokenLatency ==> r.message@
            == "admission rejected: predicted TTFT "@ + detail@ + " ms exceeds "@ + bound@
            + " ms SLO"@,
        reason == Refusal::SlotsExhausted ==> r.message@ == "engine request slots exhausted"@,
        reason == Refusal::PagesUnavailable ==> r.message@ == "KV admission rejected: "@ + detail@,
        reason == Refusal::PrefixUnavailable ==> r.message@ == "prefix cache attach failed: "@
            + detail@,
        reason is PromptTooLong ==> r.message@ == "prompt has "@ + crate::text::decimal_text(
            reason->tokens as nat,
        ) + " tokens; interactive limit for this hardware profile is "@
            + crate::text::decimal_text(reason->limit as nat)
            + " and no long-context queue is configured"@,
{
}

/// A bad request and an overload are answered with their own status.
pub proof fn answers_carry_their_status(
    message: String,
    bad: ServingError,
    busy: ServingError,
)
    requires
        call_ensures(ServingError::bad_request, (message,), bad),
        call_ensures(ServingError::overloaded, (message,), busy),
    ensures
        bad.status@ == "400 Bad Request"@,
        busy.status@ == "503 Service Unavailable"@,
        bad.message@ == message@,
        busy.message@ == message@,
{
}

/// A hardware profile of the known schema serves sixty-four requests, with room for a prefill
/// chunk of 512 tokens beside one token of each, and queues twice as many.
pub proof fn profiles_give_the_serving_sizes(
    cost_model: HardwareCostModel,
    scheduler: SchedulerConfig,
    r: Result<ContinuousEngineConfig, ConfigError>,
)
    requires
        call_ensures(ContinuousEngineConfig::from_cost_model, (cost_model, scheduler), r),
    ensures
        r is Ok <==> cost_model.schema_version == 1,
        r is Ok ==> {
            let config = r->Ok_0;
            &&& config.maximum_request_slots == 64
            &&& config.maximum_sequence_tokens == 32768
            &&& config.maximum_batch_tokens == config.maximum_request_slots + 512
            &&& config.physical_kv_pages == 1
            &&& config.queue_capacity == 2 * config.maximum_request_slots
            &&& config.scheduler == scheduler
            &&& config.cost_model == cost_model
            &&& !config.trace_steps
        },
        r is Err ==> r->Err_0 == (ConfigError::UnsupportedSchema {
            version: cost_model.schema_version,
        }),
{
}

/// A decode benchmark plans every batch at every context, each as it would be planned alone.
pub proof fn grids_plan_every_point(
    batches: &[usize],
    contexts: &[usize],
    warmup: usize,
    steps: usize,
    bytes: usize,
    free: usize,
    r: Result<Vec<PointPlan>, BenchmarkError>,
    b: int,
    c: int,
    alone: Result<PointPlan, BenchmarkError>,
)
    requires
        call_ensures(plan_decode_points, (batches, contexts, warmup, steps, bytes, free), r),
        r is Ok,
        0 <= b < batches@.len(),
        0 <= c < contexts@.len(),
        call_ensures(
            plan_decode_point,
            (batches@[b], contexts@[c], warmup, steps, bytes, free),
            alone,
        ),
    ensures
        alone is Ok,
        r->Ok_0@.len() == contexts@.len() * batches@.len(),
        0 <= c * batches@.len() + b < r->Ok_0@.len(),
        ({
            let plan = r->Ok_0@[c * batches@.len() + b];
            &&& plan is Measure <==> alone->Ok_0 is Measure
            &&& plan is Measure ==> plan == alone->Ok_0
            &&& plan is Skip ==> plan->Skip_0.batch_size == batches@[b]
                && plan->Skip_0.context_tokens == contexts@[c]
                && plan->Skip_0.required_kv_bytes == alone->Ok_0->Skip_0.required_kv_bytes
        }),
{
    let point = c * batches@.len() + b;
    let m = contexts@.len() as int;
    let n = batches@.len() as int;
    assert(0 < m * n) by (nonlinear_arith)
        requires
            m > 0,
            n > 0,
    ;
    grid_holds_every_pair_once(batches@, contexts@, c, b, 0);
    let plan = r->Ok_0@[point];
}

/// A paired benchmark plans every batch at every context, each as it would be planned alone.
pub proof fn paired_grids_plan_every_point(
    batches: &[usize],
    contexts: &[usize],
    warmup: usize,
    pairs: usize,
    limit: usize,
    page: KvPageSize,
    r: Result<Vec<BatchedPointPlan>, BenchmarkError>,
    b: int,
    c: int,
    alone: Result<BatchedPointPlan, BenchmarkError>,
)
    requires
        call_ensures(plan_batched_fp8_points, (batches, contexts, warmup, pairs, limit, page), r),
        r is Ok,
        0 <= b < batches@.len(),
        0 <= c < contexts@.len(),
        call_ensures(
            plan_batched_fp8_point,
            (batches@[b], contexts@[c], warmup, pairs, limit, page),
            alone,
        ),
    ensures
        alone is Ok,
        r->Ok_0@.len() == contexts@.len() * batches@.len(),
        0 <= c * batches@.len() + b < r->Ok_0@.len(),
        r->Ok_0@[c * batches@.len() + b] == alone->Ok_0,
{
    let m = contexts@.len() as int;
    let n = batches@.len() as int;
    assert(0 < m * n) by (nonlinear_arith)
        requires
            m > 0,
            n > 0,
    ;
    grid_holds_every_pair_once(batches@, contexts@, c, b, 0);
    let plan = r->Ok_0@[c * batches@.len() + b];
}

/// An owner starts by draining what is queued, with all counters at nothing.
pub proof fn owners_start_by_draining(slots: usize, r: OwnerLoop)
    requires
        call_ensures(OwnerLoop::new, (slots,), r),
    ensures
        r.phase == OwnerPhase::Draining,
        r.maximum_request_slots == slots,
        r.counters.engine_steps == 0,
        r.counters.completed_requests == 0,
        r.counters.generated_tokens == 0,
        r.counters.model_input_tokens == 0,
        r.counters.maximum_active_requests == 0,
{
}

/// A generated token is appended to its request, which decodes from then on.
pub proof fn tokens_are_appended(request: &mut RequestState, token: u32, r: ())
    requires
        call_ensures(RequestState::push_token, (request, token), r),
    ensures
        final(request)@.tokens == old(request)@.tokens.push(token),
        final(request)@.phase == RequestPhase::Decoding,
        final(request)@.prompt_len == old(request)@.prompt_len,
        final(request)@.prefilled == old(request)@.prefilled,
{
}

/// The counters of all generations are added up, each with its own kind, and every
/// generation gives its interval.
pub proof fn summaries_add_every_generation(
    samples: Vec<PoolCounters>,
    intervals: Vec<Option<F64>>,
    r: Result<SummaryParts, BenchmarkError>,
)
    requires
        call_ensures(summarize_generation_metrics, (&samples, &intervals), r),
        samples@.len() == 1,
        intervals@.len() == 1,
    ensures
        r is Ok ==> r->Ok_0.counters == samples@[0],
        r is Ok ==> intervals@[0] == Some(r->Ok_0.intervals@[0]),
{
    reveal_with_fuel(pool_totals, 2);
    if r is Ok {
        let interval = r->Ok_0.intervals@[0];
    }
}

/// One more generation adds its counters, each to its own kind.
pub proof fn summaries_grow_by_a_generation(
    samples: Vec<PoolCounters>,
    intervals: Vec<Option<F64>>,
    r: Result<SummaryParts, BenchmarkError>,
    more: Vec<PoolCounters>,
    later: Vec<Option<F64>>,
    s: Result<SummaryParts, BenchmarkError>,
)
    requires
        call_ensures(summarize_generation_metrics, (&samples, &intervals), r),
        call_ensures(summarize_generation_metrics, (&more, &later), s),
        pool_totals(more@, more@.len() as int).fits(),
        more@.len() > 0,
        samples@ == more@.drop_last(),
        r is Ok,
        s is Ok,
    ensures
        ({
            let a = r->Ok_0.counters;
            let b = s->Ok_0.counters;
            let last = more@.last();
            &&& b.bf16_hits == a.bf16_hits + last.bf16_hits
            &&& b.bf16_misses == a.bf16_misses + last.bf16_misses
            &&& b.fp8_hits == a.fp8_hits + last.fp8_hits
            &&& b.fp8_misses == a.fp8_misses + last.fp8_misses
            &&& b.decode_bf16_hits == a.decode_bf16_hits + last.decode_bf16_hits
            &&& b.decode_bf16_misses == a.decode_bf16_misses + last.decode_bf16_misses
            &&& b.decode_fp8_hits == a.decode_fp8_hits + last.decode_fp8_hits
            &&& b.decode_fp8_misses == a.decode_fp8_misses + last.decode_fp8_misses
        }),
{
    lemma_totals_of_prefix(samples@, more@, samples@.len() as int);
}

proof fn lemma_totals_of_prefix(samples: Seq<PoolCounters>, more: Seq<PoolCounters>, upto: int)
    requires
        more.len() > 0,
        samples == more.drop_last(),
        0 <= upto <= samples.len(),
    ensures
        pool_totals(samples, upto) == pool_totals(more, upto),
        pool_totals(more, upto).bf16_hits >= 0,
        pool_totals(more, upto).bf16_misses >= 0,
        pool_totals(more, upto).fp8_hits >= 0,
        pool_totals(more, upto).fp8_misses >= 0,
        pool_totals(more, upto).decode_bf16_hits >= 0,
        pool_totals(more, upto).decode_bf16_misses >= 0,
        pool_totals(more, upto).decode_fp8_hits >= 0,
        pool_totals(more, upto).decode_fp8_misses >= 0,
    decreases upto,
{
    if upto > 0 {
        lemma_totals_of_prefix(samples, more, upto - 1);
    }
}

/// Rows that are copies of the reference row agree with it.
pub proof fn copied_rows_agree(
    reference: &[Bf16],
    values: &[Bf16],
    first: usize,
    rows: usize,
    r: bool,
    place: Option<usize>,
)
    requires
        call_ensures(all_rows_agree, (reference, values, first, rows), r),
        call_ensures(cpu_argmax_bf16, (reference, 0, reference@.len() as usize), place),
        reference@.len() <= usize::MAX,
        forall|row: int, i: int|
            first <= row < rows && 0 <= i < reference@.len() ==> #[trigger] values@[row
                * reference@.len() + i] == reference@[i],
    ensures
        r,
{
    let width = reference@.len() as int;
    let scores = row_scores(reference@, 0, width);
    assert(is_argmax(scores, place));
    assert forall|row: int| first <= row < rows implies #[trigger] row_agrees_with(
        scores,
        values@,
        width,
        row,
    ) by {
        assert(row_scores(values@, row * width, width) =~= scores) by {
            assert forall|i: int| 0 <= i < width implies row_scores(values@, row * width, width)[i]
                == scores[i] by {
                assert(values@[row * width + i] == reference@[i]);
            }
        }
    }
}

/// Rows that agree peak where the reference row does.
pub proof fn agreeing_rows_peak_alike(
    reference: &[Bf16],
    values: &[Bf16],
    first: usize,
    rows: usize,
    r: bool,
    row: int,
)
    requires
        call_ensures(all_rows_agree, (reference, values, first, rows), r),
        first <= row < rows,
        r,
    ensures
        exists|place: Option<usize>| #[trigger]
            is_argmax(row_scores(reference@, 0, reference@.len() as int), place) && is_argmax(
                row_scores(values@, row * reference@.len(), reference@.len() as int),
                place,
            ),
{
    let width = reference@.len() as int;
    assert(row_agrees_with(row_scores(reference@, 0, width), values@, width, row));
}

} // verus!
