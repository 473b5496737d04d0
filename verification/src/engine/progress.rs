//! How requests get on: what each row of a step runs, and what it leaves behind.
use vstd::prelude::*;

use crate::engine::batch::{assembled, extended, scheduled_range, RaggedView};
use crate::engine::owner::StepError;
use crate::engine::step::{
    complete_row, complete_step, generated_tokens, mark_scheduled, row_outcome, row_request,
    row_state, rows_applied, FinishReason, PoolStats, PoolUse, RequestLife, RequestRow,
    ResponseState, RowOutcome, StepRules, StepView,
};
use crate::scheduler::{RequestPhase, RequestSlots, RequestState, RequestView, ScheduledWork};

verus! {

/// A prefill row moves its request on by exactly the rows that the step ran for it: as many
/// tokens as were scheduled, or as the prompt still has. What is now done is published if it
/// fills whole pages, and the request gets its first token exactly when its prompt is done.
pub proof fn prefill_advances_by_what_was_run(
    item: ScheduledWork,
    slots: Seq<RequestView>,
    state: ResponseState,
    token: u32,
    rules: StepRules,
)
    requires
        item is Prefill,
        scheduled_range(item, slots) is Ok,
        slots[item->Prefill_slot.0 as int].prefilled <= slots[item->Prefill_slot.0 as int].prompt_len,
    ensures
        ({
            let before = slots[item->Prefill_slot.0 as int];
            let outcome = row_outcome(item, before, state, token, rules);
            let after = row_request(item, before, outcome);
            let (start, length) = scheduled_range(item, slots)->Ok_0;
            let left = before.prompt_len - before.prefilled;
            &&& start == before.prefilled
            &&& length == (if item->Prefill_tokens <= left {
                item->Prefill_tokens as int
            } else {
                left
            })
            &&& after.prefilled == before.prefilled + length
            &&& after.prompt_len == before.prompt_len
            &&& after.reserved_pages == before.reserved_pages
            &&& outcome.slot == item->Prefill_slot
            &&& after.prompt_len <= usize::MAX ==> (outcome.publish is Some <==> after.prefilled > 0
                && rules.page_size > 0 && after.prefilled as int % rules.page_size as int == 0)
            &&& after.prompt_len <= usize::MAX && outcome.publish is Some ==> outcome.publish
                == Some(after.prefilled as usize)
            &&& outcome.emission is Some <==> after.prefilled == after.prompt_len
            &&& outcome.emission is None ==> after.tokens == before.tokens && after.phase
                == before.phase
        }),
{
}

/// A decode row runs the last token of its request, and always gives one more. It leaves the
/// prompt's progress alone and publishes nothing.
pub proof fn decode_continues_behind_the_last_token(
    item: ScheduledWork,
    slots: Seq<RequestView>,
    state: ResponseState,
    token: u32,
    rules: StepRules,
)
    requires
        item is Decode,
        scheduled_range(item, slots) is Ok,
    ensures
        ({
            let before = slots[item->Decode_slot.0 as int];
            let outcome = row_outcome(item, before, state, token, rules);
            let after = row_request(item, before, outcome);
            let (start, length) = scheduled_range(item, slots)->Ok_0;
            &&& start + 1 == before.tokens.len()
            &&& length == 1
            &&& after.prefilled == before.prefilled
            &&& after.prompt_len == before.prompt_len
            &&& after.reserved_pages == before.reserved_pages
            &&& outcome.slot == item->Decode_slot
            &&& outcome.publish is None
            &&& outcome.emission is Some
        }),
{
}

/// What a row gives is the token that was sampled for it. It ends the answer if it is the token
/// that ends texts and the request heeds that, and is then not part of the answer; otherwise it
/// is appended, and ends the answer if that has as many tokens as were asked for.
pub proof fn emissions_follow_the_sampled_token(
    item: ScheduledWork,
    before: RequestView,
    state: ResponseState,
    token: u32,
    rules: StepRules,
    used: PoolUse,
)
    requires
        state.generated_tokens < usize::MAX,
        row_outcome(item, before, state, token, rules).emission is Some,
    ensures
        ({
            let outcome = row_outcome(item, before, state, token, rules);
            let emission = outcome.emission->Some_0;
            let after = row_request(item, before, outcome);
            let response = row_state(state, outcome, used);
            let ends = state.stop_on_eos && token == rules.eos_token_id;
            &&& emission.token == token
            &&& emission.kept <==> !ends
            &&& emission.first <==> state.generated_tokens == 0
            &&& emission.finish == Some(FinishReason::Stop) <==> ends
            &&& emission.finish == Some(FinishReason::Length) <==> !ends
                && response.generated_tokens >= state.maximum_new_tokens
            &&& emission.finish is None <==> !ends && response.generated_tokens
                < state.maximum_new_tokens
            &&& response.generated_tokens == state.generated_tokens + 1
            &&& ends ==> after.tokens == before.tokens && after.phase == before.phase
            &&& !ends ==> after.tokens == before.tokens.push(token) && after.phase
                == RequestPhase::Decoding
        }),
{
}

/// Every row charges its request with what the step took from the pools, up to the largest
/// counter, and leaves the terms of the request alone.
pub proof fn rows_charge_the_pools(
    item: ScheduledWork,
    before: RequestView,
    state: ResponseState,
    token: u32,
    rules: StepRules,
    used: PoolUse,
)
    ensures
        ({
            let after = row_state(state, row_outcome(item, before, state, token, rules), used);
            &&& after.bf16_pool_hits == crate::num::min_int(
                state.bf16_pool_hits + used.bf16_hits,
                u64::MAX as int,
            )
            &&& after.bf16_pool_misses == crate::num::min_int(
                state.bf16_pool_misses + used.bf16_misses,
                u64::MAX as int,
            )
            &&& after.fp8_pool_hits == crate::num::min_int(
                state.fp8_pool_hits + used.fp8_hits,
                u64::MAX as int,
            )
            &&& after.fp8_pool_misses == crate::num::min_int(
                state.fp8_pool_misses + used.fp8_misses,
                u64::MAX as int,
            )
            &&& after.prompt_tokens == state.prompt_tokens
            &&& after.maximum_new_tokens == state.maximum_new_tokens
            &&& after.stop_on_eos == state.stop_on_eos
            &&& after.first_scheduled == state.first_scheduled
        }),
{
}

/// The tokens that the first `upto` rows were to prefill.
pub open spec fn chunk_sum(rows: Seq<RequestRow>, upto: int) -> int
    decreases upto,
{
    if upto <= 0 {
        0
    } else {
        chunk_sum(rows, upto - 1) + rows[upto - 1].item->Prefill_tokens
    }
}

/// A prompt that is prefilled in chunks is done when its chunks add up to it, whatever their
/// lengths: until then the request has as many prompt tokens done as were in its chunks and no
/// answer, and at the row that completes the prompt it gets its first token.
pub proof fn chunks_add_up_to_the_prompt(
    request: RequestView,
    maximum_new_tokens: usize,
    stop_on_eos: bool,
    rows: Seq<RequestRow>,
    rules: StepRules,
    upto: int,
)
    requires
        request.prefilled < request.prompt_len,
        0 <= upto <= rows.len(),
        forall|i: int| 0 <= i < upto ==> (#[trigger] rows[i]).item is Prefill,
        upto > 0 ==> request.prefilled + chunk_sum(rows, upto - 1) < request.prompt_len,
    ensures
        ({
            let start = RequestLife::admitted(request, maximum_new_tokens, stop_on_eos);
            let end = start.after_rows(rows, rules, upto);
            let reached = request.prefilled + chunk_sum(rows, upto);
            &&& reached < request.prompt_len ==> {
                &&& end.request.prefilled == reached
                &&& end.state.generated_tokens == 0
                &&& end.finish is None
                &&& end.request.tokens == request.tokens
            }
            &&& reached >= request.prompt_len ==> {
                &&& end.request.prefilled == request.prompt_len
                &&& end.state.generated_tokens == 1
            }
            &&& end.request.prompt_len == request.prompt_len
        }),
    decreases upto,
{
    if upto > 0 {
        lemma_chunks_grow(rows, upto - 1);
        chunks_add_up_to_the_prompt(
            request,
            maximum_new_tokens,
            stop_on_eos,
            rows,
            rules,
            upto - 1,
        );
        assert(rows[upto - 1].item is Prefill);
    }
}

proof fn lemma_chunks_grow(rows: Seq<RequestRow>, upto: int)
    requires
        0 <= upto,
        forall|i: int| 0 <= i < upto ==> (#[trigger] rows[i]).item is Prefill,
    ensures
        chunk_sum(rows, upto) >= chunk_sum(rows, upto - 1) >= 0,
    decreases upto,
{
    if upto > 0 {
        lemma_chunks_grow(rows, upto - 1);
    }
}

proof fn lemma_batch_grows(batch: RaggedView, item: ScheduledWork, slots: Seq<RequestView>)
    requires
        extended(batch, item, slots) is Ok,
        batch.positions.len() == batch.token_ids.len(),
        batch.request_slots.len() == batch.token_ids.len(),
        batch.segment_offsets.len() == batch.segment_slots.len() + 1,
        batch.output_rows.len() == batch.segment_slots.len(),
        batch.segment_offsets.last() == batch.token_ids.len(),
    ensures
        ({
            let after = extended(batch, item, slots)->Ok_0;
            let (start, length) = scheduled_range(item, slots)->Ok_0;
            let k = batch.segment_slots.len() as int;
            let first = batch.token_ids.len() as int;
            &&& after.positions.len() == after.token_ids.len()
            &&& after.request_slots.len() == after.token_ids.len()
            &&& after.segment_offsets.len() == after.segment_slots.len() + 1
            &&& after.output_rows.len() == after.segment_slots.len()
            &&& after.segment_offsets.last() == after.token_ids.len()
            &&& after.segment_slots.len() == k + 1
            &&& after.segment_slots[k] == item.slot_id().0
            &&& after.segment_offsets[k] == first
            &&& after.segment_offsets[k + 1] == first + length
            &&& after.output_rows[k] == first + length - 1
            &&& after.token_ids.len() == first + length
            &&& forall|i: int|
                0 <= i < length ==> {
                    &&& #[trigger] after.token_ids[first + i]
                        == slots[item.slot_id().0 as int].tokens[start + i]
                    &&& after.positions[first + i] == start + i
                    &&& after.request_slots[first + i] == item.slot_id().0
                }
            &&& forall|s: int|
                0 <= s < k ==> {
                    &&& #[trigger] after.segment_slots[s] == batch.segment_slots[s]
                    &&& after.segment_offsets[s] == batch.segment_offsets[s]
                    &&& after.segment_offsets[s + 1] == batch.segment_offsets[s + 1]
                    &&& after.output_rows[s] == batch.output_rows[s]
                }
            &&& forall|row: int|
                0 <= row < first ==> {
                    &&& #[trigger] after.token_ids[row] == batch.token_ids[row]
                    &&& after.positions[row] == batch.positions[row]
                    &&& after.request_slots[row] == batch.request_slots[row]
                }
        }),
{
    let after = extended(batch, item, slots)->Ok_0;
    let (start, length) = scheduled_range(item, slots)->Ok_0;
    let slot = item.slot_id().0 as int;
    let taken = slots[slot].tokens.subrange(start, start + length);
    assert(taken.len() == length);
    assert forall|i: int| 0 <= i < length implies {
        &&& #[trigger] after.token_ids[batch.token_ids.len() + i] == slots[slot].tokens[start + i]
        &&& after.positions[batch.token_ids.len() + i] == start + i
        &&& after.request_slots[batch.token_ids.len() + i] == item.slot_id().0
    } by {
        assert(after.token_ids[batch.token_ids.len() + i] == taken[i]);
    }
}

/// Segment `k` of a step's batch runs what work item `k` scheduled: the last token of a decoding
/// request, or the next tokens of a prompt, at their own positions and with their own tokens,
/// and the row that gets logits is its last one.
pub proof fn segments_run_their_work(work: Seq<ScheduledWork>, slots: Seq<RequestView>, k: int)
    requires
        assembled(work, slots) is Ok,
        0 <= k < work.len(),
    ensures
        ({
            let batch = assembled(work, slots)->Ok_0;
            let request = slots[work[k].slot_id().0 as int];
            let first = batch.segment_offsets[k] as int;
            let end = batch.segment_offsets[k + 1] as int;
            let (start, length) = scheduled_range(work[k], slots)->Ok_0;
            &&& scheduled_range(work[k], slots) is Ok
            &&& batch.segment_slots.len() == work.len()
            &&& batch.segment_offsets.len() == work.len() + 1
            &&& batch.output_rows.len() == work.len()
            &&& batch.segment_slots[k] == work[k].slot_id().0
            &&& work[k].slot_id().0 < slots.len()
            &&& 0 <= first <= end <= batch.token_ids.len()
            &&& end - first == length
            &&& batch.output_rows[k] == end - 1
            &&& forall|i: int|
                0 <= i < length ==> {
                    &&& #[trigger] batch.token_ids[first + i] == request.tokens[start + i]
                    &&& batch.positions[first + i] == start + i
                    &&& batch.request_slots[first + i] == work[k].slot_id().0
                }
            &&& batch.positions.len() == batch.token_ids.len()
            &&& batch.request_slots.len() == batch.token_ids.len()
            &&& batch.segment_offsets[0] == 0
            &&& batch.segment_offsets.last() == batch.token_ids.len()
        }),
    decreases work.len(),
{
    lemma_sizes(work.drop_last(), slots);
    let before = assembled(work.drop_last(), slots)->Ok_0;
    lemma_batch_grows(before, work.last(), slots);
    if k < work.len() - 1 {
        segments_run_their_work(work.drop_last(), slots, k);
        let after = assembled(work, slots)->Ok_0;
        assert(work.drop_last()[k] == work[k]);
        assert(after.segment_slots[k] == before.segment_slots[k]);
        let first = before.segment_offsets[k] as int;
        let (start, length) = scheduled_range(work[k], slots)->Ok_0;
        assert forall|i: int| 0 <= i < length implies {
            &&& #[trigger] after.token_ids[first + i]
                == slots[work[k].slot_id().0 as int].tokens[start + i]
            &&& after.positions[first + i] == start + i
            &&& after.request_slots[first + i] == work[k].slot_id().0
        } by {
            assert(after.token_ids[first + i] == before.token_ids[first + i]);
        }
    }
}

proof fn lemma_sizes(work: Seq<ScheduledWork>, slots: Seq<RequestView>)
    requires
        assembled(work, slots) is Ok,
    ensures
        ({
            let batch = assembled(work, slots)->Ok_0;
            &&& batch.positions.len() == batch.token_ids.len()
            &&& batch.request_slots.len() == batch.token_ids.len()
            &&& batch.segment_slots.len() == work.len()
            &&& batch.segment_offsets.len() == work.len() + 1
            &&& batch.output_rows.len() == work.len()
            &&& batch.segment_offsets[0] == 0
            &&& batch.segment_offsets.last() == batch.token_ids.len()
        }),
    decreases work.len(),
{
    if work.len() > 0 {
        lemma_sizes(work.drop_last(), slots);
        let before = assembled(work.drop_last(), slots)->Ok_0;
        lemma_batch_grows(before, work.last(), slots);
    }
}

/// Applying a row moves its request on by what ran: a prefill row by its tokens, or to the end
/// of the prompt, and a decode row by nothing of the prompt. A token comes from every decode
/// row and from the prefill row that ends the prompt, and is kept unless it ends the answer.
pub proof fn applied_rows_move_requests_on(
    item: ScheduledWork,
    request: &mut RequestState,
    state: &mut ResponseState,
    token: u32,
    rules: StepRules,
    used: PoolUse,
    r: RowOutcome,
)
    requires
        call_ensures(complete_row, (item, request, state, token, rules, used), r),
        old(request).prefilled <= old(request).prompt_len,
        old(state).generated_tokens < usize::MAX,
    ensures
        ({
            let was = *old(request);
            let now = *final(request);
            let chunk = if item is Prefill {
                item->Prefill_tokens as int
            } else {
                0
            };
            let done = was.prefilled + chunk >= was.prompt_len;
            let ends = old(state).stop_on_eos && token == rules.eos_token_id;
            &&& r.slot == item.slot_id()
            &&& item is Prefill && !done ==> now.prefilled == was.prefilled + chunk
            &&& item is Prefill && done ==> now.prefilled == was.prompt_len
            &&& item is Decode ==> now.prefilled == was.prefilled
            &&& now.prompt_len == was.prompt_len
            &&& now.reserved_pages == was.reserved_pages
            &&& r.emission is Some <==> item is Decode || done
            &&& r.emission is Some ==> r.emission->0.token == token
            &&& r.emission is Some ==> (r.emission->0.kept <==> !ends)
            &&& r.emission is Some ==> (r.emission->0.first <==> old(state).generated_tokens == 0)
            &&& r.emission is Some ==> r.emission->0.finish == (if ends {
                Some(FinishReason::Stop)
            } else if old(state).generated_tokens + 1 >= old(state).maximum_new_tokens {
                Some(FinishReason::Length)
            } else {
                None::<FinishReason>
            })
            &&& r.emission is Some && !ends ==> now.tokens@ == was.tokens@.push(token) && now.phase
                == RequestPhase::Decoding
            &&& r.emission is None || ends ==> now.tokens@ == was.tokens@ && now.phase == was.phase
            &&& r.emission is Some ==> final(state).generated_tokens == old(
                state).generated_tokens + 1
            &&& r.emission is None ==> final(state).generated_tokens == old(
                state).generated_tokens
            &&& r.publish is Some <==> item is Prefill && now.prefilled > 0 && rules.page_size > 0
                && now.prefilled as int % rules.page_size as int == 0
            &&& r.publish is Some ==> r.publish->0 == now.prefilled
            &&& final(state).maximum_new_tokens == old(state).maximum_new_tokens
            &&& final(state).prompt_tokens == old(state).prompt_tokens
            &&& final(state).stop_on_eos == old(state).stop_on_eos
        }),
{
}

proof fn lemma_step_touches_named_slots(
    before: StepView,
    work: Seq<ScheduledWork>,
    sampled: Seq<u32>,
    rules: StepRules,
    used: PoolUse,
    count: int,
    slot: int,
)
    requires
        0 <= count <= work.len(),
        0 <= slot < before.slots.len(),
        before.states.len() == before.slots.len(),
        forall|i: int| 0 <= i < count ==> (#[trigger] work[i]).slot_id().0 != slot,
    ensures
        ({
            let after = rows_applied(before, work, sampled, rules, used, count);
            &&& after.slots.len() == before.slots.len()
            &&& after.states.len() == before.states.len()
            &&& after.slots[slot] == before.slots[slot]
            &&& after.states[slot] == before.states[slot]
        }),
    decreases count,
{
    if count > 0 {
        lemma_step_touches_named_slots(before, work, sampled, rules, used, count - 1, slot);
    }
}

/// A step changes nothing of requests that it does not work on, and answers each of its items
/// with one row if all their slots are there.
pub proof fn steps_leave_other_requests_alone(
    work: &Vec<ScheduledWork>,
    slots: &mut RequestSlots,
    states: &mut Vec<ResponseState>,
    sampled: &[u32],
    rules: StepRules,
    used: PoolUse,
    r: Result<Vec<RowOutcome>, StepError>,
    slot: int,
)
    requires
        call_ensures(complete_step, (work, slots, states, sampled, rules, used), r),
        old(states)@.len() == old(slots)@.len(),
        0 <= slot < old(slots)@.len(),
        forall|i: int| 0 <= i < work@.len() ==> (#[trigger] work@[i]).slot_id().0 != slot,
    ensures
        final(slots)@.len() == old(slots)@.len(),
        final(slots)@[slot] == old(slots)@[slot],
        final(states)@[slot] == old(states)@[slot],
        r is Ok ==> r->Ok_0@.len() == work@.len(),
{
    let before = StepView {
        slots: old(slots)@,
        states: old(states)@,
        rows: Seq::<RowOutcome>::empty(),
    };
    lemma_step_touches_named_slots(
        before,
        work@,
        sampled@,
        rules,
        used,
        work@.len() as int,
        slot,
    );
}

proof fn lemma_known_rows_are_applied(
    before: StepView,
    work: Seq<ScheduledWork>,
    sampled: Seq<u32>,
    rules: StepRules,
    used: PoolUse,
    count: int,
)
    requires
        0 <= count <= work.len(),
        before.rows.len() == 0,
        forall|i: int| 0 <= i < work.len() ==> (#[trigger] work[i]).slot_id().0 < before.slots.len(),
    ensures
        rows_applied(before, work, sampled, rules, used, count).rows.len() == count,
        rows_applied(before, work, sampled, rules, used, count).slots.len() == before.slots.len(),
    decreases count,
{
    if count > 0 {
        lemma_known_rows_are_applied(before, work, sampled, rules, used, count - 1);
        assert(work[count - 1].slot_id().0 < before.slots.len());
    }
}

/// A step on slots that are all there never fails.
pub proof fn steps_on_known_slots_succeed(
    work: &Vec<ScheduledWork>,
    slots: &mut RequestSlots,
    states: &mut Vec<ResponseState>,
    sampled: &[u32],
    rules: StepRules,
    used: PoolUse,
    r: Result<Vec<RowOutcome>, StepError>,
)
    requires
        call_ensures(complete_step, (work, slots, states, sampled, rules, used), r),
        forall|i: int|
            0 <= i < work@.len() ==> (#[trigger] work@[i]).slot_id().0 < old(slots)@.len(),
    ensures
        r is Ok,
{
    let before = StepView {
        slots: old(slots)@,
        states: old(states)@,
        rows: Seq::<RowOutcome>::empty(),
    };
    lemma_known_rows_are_applied(before, work@, sampled@, rules, used, work@.len() as int);
}

/// What a step used of the pools is what they counted while it ran.
pub proof fn pool_use_is_the_difference(
    bf16_before: PoolStats,
    bf16_after: PoolStats,
    fp8_before: PoolStats,
    fp8_after: PoolStats,
    r: PoolUse,
)
    requires
        call_ensures(PoolUse::between, (bf16_before, bf16_after, fp8_before, fp8_after), r),
        bf16_before.hits <= bf16_after.hits,
        bf16_before.misses <= bf16_after.misses,
        fp8_before.hits <= fp8_after.hits,
        fp8_before.misses <= fp8_after.misses,
    ensures
        bf16_before.hits + r.bf16_hits == bf16_after.hits,
        bf16_before.misses + r.bf16_misses == bf16_after.misses,
        fp8_before.hits + r.fp8_hits == fp8_after.hits,
        fp8_before.misses + r.fp8_misses == fp8_after.misses,
{
}

/// A request starts with nothing generated and nothing counted, and was never scheduled.
pub proof fn responses_start_from_nothing(prompt: usize, most: usize, stop: bool, r: ResponseState)
    requires
        call_ensures(ResponseState::admitted, (prompt, most, stop), r),
    ensures
        r.prompt_tokens == prompt,
        r.maximum_new_tokens == most,
        r.stop_on_eos == stop,
        r.generated_tokens == 0,
        !r.first_scheduled,
        r.bf16_pool_hits == 0 && r.bf16_pool_misses == 0,
        r.fp8_pool_hits == 0 && r.fp8_pool_misses == 0,
{
}

/// Requests with work are marked as scheduled. Nothing changes of those that have none, and
/// nothing else of those that have some.
pub proof fn scheduled_requests_are_marked(
    work: &Vec<ScheduledWork>,
    states: &mut Vec<ResponseState>,
    r: (),
    slot: int,
    item: int,
)
    requires
        call_ensures(mark_scheduled, (work, states), r),
        0 <= slot < old(states)@.len(),
    ensures
        final(states)@.len() == old(states)@.len(),
        0 <= item < work@.len() && work@[item].slot_id().0 == slot
            ==> final(states)@[slot].first_scheduled,
        old(states)@[slot].first_scheduled ==> final(states)@[slot].first_scheduled,
        (forall|i: int| 0 <= i < work@.len() ==> (#[trigger] work@[i]).slot_id().0 != slot)
            ==> final(states)@[slot] == old(states)@[slot],
        final(states)@[slot].generated_tokens == old(states)@[slot].generated_tokens,
        final(states)@[slot].prompt_tokens == old(states)@[slot].prompt_tokens,
{
}

/// The answer of a request is what follows its prompt.
pub proof fn answers_follow_the_prompt(request: &RequestState, state: &ResponseState, r: Vec<u32>, i: int)
    requires
        call_ensures(generated_tokens, (request, state), r),
        state.prompt_tokens <= request.tokens@.len(),
        0 <= i < r@.len(),
    ensures
        r@.len() + state.prompt_tokens == request.tokens@.len(),
        r@[i] == request.tokens@[state.prompt_tokens + i],
{
}

/// Clients see why an answer ended.
pub proof fn endings_are_named(reason: FinishReason, r: &'static str)
    requires
        call_ensures(FinishReason::name, (reason,), r),
    ensures
        reason == FinishReason::Stop ==> r@ == "stop"@,
        reason == FinishReason::Length ==> r@ == "length"@,
{
}

} // verus!
