//! The terms on which requests are taken: what admission promises, in numbers.
use vstd::prelude::*;

use crate::cache::KvPageSize;
use crate::engine::admission::{
    decoding_requests, longest_context, queued_prompts, survey_load, Admission, AdmissionAction,
    AdmissionLimits, AdmissionStage, EngineLoad, LatencyForecast, Refusal, RequestLengthOverflow,
    RequestShape, ServingError,
};
use crate::generation::sampler::{Sampler, SamplingError, SamplingRoute};
use crate::scheduler::{RequestPhase, RequestSlots, RequestView};

verus! {

/// Serving picks the largest logit and nothing else, so it takes exactly the requests that a
/// sampler with their settings would answer that way: temperature zero, of either sign, and a
/// repetition penalty of one. All others are told so, whatever else is wrong with them.
pub proof fn only_greedy_requests_are_taken(
    shape: RequestShape,
    limits: AdmissionLimits,
    page_size: KvPageSize,
    r: Result<(Admission, AdmissionAction), RequestLengthOverflow>,
    sampler: &Sampler,
    dims: &[usize],
    route: Result<SamplingRoute, SamplingError>,
)
    requires
        call_ensures(Admission::begin, (shape, limits, page_size), r),
        call_ensures(Sampler::route, (sampler, dims), route),
        sampler.configuration().temperature == shape.temperature,
        sampler.configuration().repetition_penalty == shape.repetition_penalty,
        dims@.len() == 2,
        dims@[0] == 1,
    ensures
        ({
            let told = r is Ok && r->Ok_0.1 == (AdmissionAction::Refuse {
                reason: Refusal::NotGreedy,
                release_pages: false,
                release_slot: false,
            });
            let greedy = (shape.temperature.bits == 0 || shape.temperature.bits == 0x8000_0000)
                && shape.repetition_penalty.bits == 0x3f80_0000;
            &&& told <==> !greedy
            &&& told <==> route != Ok::<SamplingRoute, SamplingError>(SamplingRoute::DeviceArgmax)
        }),
{
}

/// A greedy request goes on to the lookup of its prefix exactly if prompt and answer together
/// fit the configured length and the model, and the prompt is within the interactive limit. A
/// length equal to a limit fits. What does not fit at all is told apart from what is only too
/// long to prefill.
pub proof fn requests_are_held_to_their_lengths(
    shape: RequestShape,
    limits: AdmissionLimits,
    page_size: KvPageSize,
    r: Result<(Admission, AdmissionAction), RequestLengthOverflow>,
)
    requires
        call_ensures(Admission::begin, (shape, limits, page_size), r),
        shape.temperature.bits == 0,
        shape.repetition_penalty.bits == 0x3f80_0000,
    ensures
        ({
            let tokens = shape.prompt_tokens + shape.maximum_new_tokens;
            let fits = tokens <= limits.maximum_sequence_tokens && tokens
                <= limits.max_position_embeddings;
            let short = shape.prompt_tokens <= limits.interactive_prompt_limit;
            &&& r is Err <==> tokens > usize::MAX
            &&& r is Ok ==> {
                let (admission, action) = r->Ok_0;
                &&& action is LookUpPrefix <==> fits && short
                &&& action is Refuse <==> !(fits && short)
                &&& !fits ==> action->Refuse_reason == Refusal::SequenceCapacity
                &&& fits && !short ==> action->Refuse_reason == (Refusal::PromptTooLong {
                    tokens: shape.prompt_tokens,
                    limit: limits.interactive_prompt_limit,
                })
                &&& action is Refuse ==> !action->Refuse_release_pages
                    && !action->Refuse_release_slot && admission.stage == AdmissionStage::Ended
                &&& action is LookUpPrefix ==> {
                    let limit = action->LookUpPrefix_limit as int;
                    let page = page_size.tokens();
                    &&& admission.stage == AdmissionStage::LookingUpPrefix
                    &&& admission.prompt_tokens == shape.prompt_tokens
                    &&& admission.total_tokens == tokens
                    &&& limit % page == 0
                    &&& shape.prompt_tokens > 0 ==> limit < shape.prompt_tokens <= limit + page
                    &&& shape.prompt_tokens == 0 ==> limit == 0
                }
            }
        }),
{
    let page = page_size.tokens();
    if shape.prompt_tokens > 0 {
        crate::cache::reusable_boundary_is_last_page_below_prompt(
            shape.prompt_tokens as int,
            page,
            0,
        );
        assert(((shape.prompt_tokens - 1) / page) * page <= shape.prompt_tokens - 1
            < ((shape.prompt_tokens - 1) / page) * page + page) by {
            vstd::arithmetic::div_mod::lemma_fundamental_div_mod(
                shape.prompt_tokens - 1,
                page,
            );
            assert(page * ((shape.prompt_tokens - 1) / page) == ((shape.prompt_tokens - 1) / page)
                * page) by (nonlinear_arith);
            assert(0 <= (shape.prompt_tokens - 1) % page < page);
        }
        assert((((shape.prompt_tokens - 1) / page) * page) % page == 0) by {
            vstd::arithmetic::div_mod::lemma_mod_multiples_basic(
                (shape.prompt_tokens - 1) / page,
                page,
            );
        }
    }
}

/// Predicted times below their limits admit, times that reach a limit do not: too slow a decode
/// is named first, by either of its two limits, then too late a first token.
pub proof fn forecasts_are_held_to_their_limits(forecast: LatencyForecast)
    requires
        !forecast.decode_ms.nan(),
        !forecast.step_budget_ms.nan(),
        !forecast.decode_us.nan(),
        !forecast.tpot_slo_us.nan(),
        !forecast.first_token_ms.nan(),
        !forecast.ttft_slo_ms.nan(),
    ensures
        ({
            let steady = forecast.decode_ms.order() < forecast.step_budget_ms.order()
                && forecast.decode_us.order() < forecast.tpot_slo_us.order();
            let prompt = forecast.first_token_ms.order() < forecast.ttft_slo_ms.order();
            &&& forecast.verdict() is None <==> steady && prompt
            &&& forecast.verdict() == Some(Refusal::DecodeLatency) <==> !steady
            &&& forecast.verdict() == Some(Refusal::FirstTokenLatency) <==> steady && !prompt
        }),
{
}

/// A request reserves no page too many: with one private page less, its pages would not hold
/// all of its tokens.
pub proof fn no_page_is_reserved_in_vain(admission: Admission)
    requires
        admission.private_pages() > 0,
    ensures
        (admission.private_pages() - 1 + admission.prefix_tokens as int
            / admission.page_size.tokens()) * admission.page_size.tokens()
            < admission.total_tokens,
{
    let page = admission.page_size.tokens();
    let all = crate::num::ceil_div(admission.total_tokens as int, page);
    let shared = admission.prefix_tokens as int / page;
    crate::num::ceil_div_covers(admission.total_tokens as int, page);
    assert(admission.private_pages() == all - shared);
    assert((all - 1) * page == all * page - page) by (nonlinear_arith);
}

/// Clients are told that a request is bad only where it is; everything else may be tried again.
pub proof fn refusals_tell_whose_fault_it_is(
    reason: Refusal,
    detail: &str,
    bound: &str,
    r: ServingError,
)
    requires
        call_ensures(Refusal::answer, (reason, detail, bound), r),
    ensures
        reason == Refusal::NotGreedy || reason == Refusal::SequenceCapacity ==> r.status@
            == "400 Bad Request"@,
        reason != Refusal::NotGreedy && reason != Refusal::SequenceCapacity ==> r.status@
            == "503 Service Unavailable"@,
{
}

spec fn decoding_below(slots: Seq<RequestView>, upto: int) -> Set<int> {
    Set::new(|i: int| 0 <= i < upto && slots[i].phase == RequestPhase::Decoding)
}

proof fn lemma_decoding_count(slots: Seq<RequestView>)
    ensures
        decoding_below(slots, slots.len() as int).finite(),
        decoding_below(slots, slots.len() as int).len() == decoding_requests(slots),
    decreases slots.len(),
{
    let all = decoding_below(slots, slots.len() as int);
    if slots.len() > 0 {
        let fewer = slots.drop_last();
        lemma_decoding_count(fewer);
        let last = slots.len() - 1;
        let before = decoding_below(fewer, last);
        if slots.last().phase == RequestPhase::Decoding {
            assert(all =~= before.insert(last));
        } else {
            assert(all =~= before);
        }
    } else {
        assert(all =~= Set::<int>::empty());
    }
}

proof fn lemma_longest(slots: Seq<RequestView>, floor: int)
    ensures
        longest_context(slots, floor) >= floor,
        forall|i: int|
            0 <= i < slots.len() && (#[trigger] slots[i]).phase == RequestPhase::Decoding
                ==> longest_context(slots, floor) >= slots[i].tokens.len(),
        longest_context(slots, floor) == floor || exists|i: int|
            0 <= i < slots.len() && (#[trigger] slots[i]).phase == RequestPhase::Decoding
                && longest_context(slots, floor) == slots[i].tokens.len(),
    decreases slots.len(),
{
    if slots.len() > 0 {
        let fewer = slots.drop_last();
        lemma_longest(fewer, floor);
        let found = longest_context(slots, floor);
        assert forall|i: int|
            0 <= i < slots.len() && (#[trigger] slots[i]).phase
                == RequestPhase::Decoding implies found >= slots[i].tokens.len() by {
            if i < fewer.len() {
                assert(fewer[i] == slots[i]);
            }
        }
        if found != floor {
            if found == longest_context(fewer, floor) {
                let i = choose|i: int|
                    0 <= i < fewer.len() && (#[trigger] fewer[i]).phase == RequestPhase::Decoding
                        && longest_context(fewer, floor) == fewer[i].tokens.len();
                assert(slots[i] == fewer[i]);
            } else {
                assert(slots[slots.len() - 1] == slots.last());
            }
        }
    }
}

/// The load that a request is judged by: itself and everybody who decodes, and the longest of
/// their contexts.
pub proof fn loads_count_everybody_who_decodes(slots: &RequestSlots, total: usize, r: EngineLoad)
    requires
        call_ensures(survey_load, (slots, total), r),
        slots@.len() < usize::MAX,
    ensures
        ({
            let decoding = Set::new(
                |i: int| 0 <= i < slots@.len() && slots@[i].phase == RequestPhase::Decoding,
            );
            &&& r.decode_count == decoding.len() + 1
            &&& r.maximum_context >= total
            &&& forall|i: int|
                0 <= i < slots@.len() && (#[trigger] slots@[i]).phase == RequestPhase::Decoding
                    ==> r.maximum_context >= slots@[i].tokens.len()
            &&& r.maximum_context == total || exists|i: int|
                0 <= i < slots@.len() && (#[trigger] slots@[i]).phase == RequestPhase::Decoding
                    && r.maximum_context == slots@[i].tokens.len()
        }),
{
    lemma_decoding_count(slots@);
    lemma_longest(slots@, total as int);
    let decoding = Set::new(
        |i: int| 0 <= i < slots@.len() && slots@[i].phase == RequestPhase::Decoding,
    );
    assert(decoding =~= decoding_below(slots@, slots@.len() as int));
    assert(decoding.len() <= slots@.len()) by {
        let range = vstd::set_lib::set_int_range(0, slots@.len() as int);
        vstd::set_lib::lemma_int_range(0, slots@.len() as int);
        vstd::set_lib::lemma_len_subset(decoding, range);
    }
}

proof fn lemma_queue_prefix(slots: Seq<RequestView>, upto: int, place: int)
    requires
        0 <= upto <= slots.len(),
        0 <= place < queued_prompts(slots.take(upto)).len(),
    ensures
        queued_prompts(slots.take(upto)).len() <= queued_prompts(slots).len(),
        queued_prompts(slots)[place] == queued_prompts(slots.take(upto))[place],
    decreases slots.len() - upto,
{
    if upto < slots.len() {
        assert(slots.take(upto + 1).drop_last() =~= slots.take(upto));
        lemma_queue_prefix(slots, upto + 1, place);
    } else {
        assert(slots.take(upto) =~= slots);
    }
}

/// Every waiting prompt is in the queue that a new one stands behind, with the tokens that it
/// still has to run, in the order of the slots.
pub proof fn loads_queue_everybody_who_waits(
    slots: &RequestSlots,
    total: usize,
    r: EngineLoad,
    i: int,
)
    requires
        call_ensures(survey_load, (slots, total), r),
        0 <= i < slots@.len(),
        slots@[i].phase == RequestPhase::QueuedPrefill,
        slots@[i].prefilled <= slots@[i].prompt_len <= usize::MAX,
    ensures
        ({
            let place = queued_prompts(slots@.take(i)).len() as int;
            &&& place < r.queued_prompt_tokens@.len()
            &&& r.queued_prompt_tokens@[place] == slots@[i].prompt_len - slots@[i].prefilled
        }),
{
    let upto = slots@.take(i + 1);
    assert(upto.drop_last() =~= slots@.take(i));
    assert(upto.last() == slots@[i]);
    lemma_queue_prefix(slots@, i + 1, queued_prompts(slots@.take(i)).len() as int);
}

} // verus!
