//! How serving conducts itself: the owner's loop, its sizes, and single generations.
use vstd::prelude::*;

use crate::cache::KvPageSize;
use crate::engine::batch::{assemble_step_batch, has_prefill_rows, RaggedBatch};
use crate::engine::config::{
    attention_count, check_warmup_pools, count_attention_layers, monotonic_us, plan_warmup,
    warmup_decodes, ConfigError, ContinuousEngineConfig, KvGeometry, WarmupError, WarmupPlan,
};
use crate::engine::generate::{
    prepare_generation, sequence_capacity, Generation, GenerationAction, GenerationError,
    GenerationOptions, GenerationTools,
};
use crate::engine::owner::{
    extends_prefix, kv_arena_bytes, next_unscheduled_prefix, prefix_page_budget,
    record_shared_prefix, retained_pool_bytes, split_prefill_at_reusable_boundary, OwnerAction,
    OwnerEvent, OwnerLoop, OwnerPhase, PrefixProbe, StepError,
};
use crate::engine::step::{FinishReason, PoolStats, ResponseState, RowOutcome};
use crate::model::profile::DecodeProfileMode;
use crate::scheduler::{
    HardwareCostModel, RequestPhase, RequestSlots, ScheduledWork, SchedulerConfig,
};

verus! {

/// What contracts say of a batch is what it holds.
pub proof fn batches_show_their_fields(batch: &RaggedBatch)
    ensures
        batch@.token_ids == batch.token_ids@,
        batch@.positions == batch.positions@,
        batch@.request_slots == batch.request_slots@,
        batch@.segment_offsets == batch.segment_offsets@,
        batch@.segment_slots == batch.segment_slots@,
        batch@.output_rows == batch.output_rows@,
{
}

/// A new batch has no row and no segment.
pub proof fn new_batches_are_empty(r: RaggedBatch)
    requires
        call_ensures(RaggedBatch::new, (), r),
    ensures
        r.token_ids@.len() == 0,
        r.positions@.len() == 0,
        r.request_slots@.len() == 0,
        r.segment_offsets@ == seq![0u32],
        r.segment_slots@.len() == 0,
        r.output_rows@.len() == 0,
{
}

/// A segment adds one row for each of its tokens, at the token's own position and in the
/// request's slot, behind the rows that are there. The segment ends with them, and its output
/// row is the last of them.
pub proof fn segments_add_their_tokens(
    batch: &mut RaggedBatch,
    slot: u32,
    tokens: &Vec<u32>,
    start: usize,
    length: usize,
    r: Result<(), StepError>,
    row: int,
    i: int,
)
    requires
        call_ensures(RaggedBatch::push_segment, (batch, slot, tokens, start, length), r),
        start + length <= tokens@.len(),
        old(batch).positions@.len() == old(batch).token_ids@.len(),
        old(batch).request_slots@.len() == old(batch).token_ids@.len(),
        0 <= row < old(batch).token_ids@.len(),
        0 <= i < length,
    ensures
        ({
            let rows = old(batch).token_ids@.len();
            let now = *final(batch);
            &&& r is Ok <==> start + length - 1 <= u32::MAX && rows + length <= u32::MAX
            &&& r is Err ==> r->Err_0 == StepError::IndexOverflow && now == *old(batch)
            &&& r is Ok ==> {
                &&& now.token_ids@.len() == rows + length
                &&& now.positions@.len() == rows + length
                &&& now.request_slots@.len() == rows + length
                &&& now.token_ids@[rows + i] == tokens@[start + i]
                &&& now.positions@[rows + i] == start + i
                &&& now.request_slots@[rows + i] == slot
                &&& now.token_ids@[row] == old(batch).token_ids@[row]
                &&& now.positions@[row] == old(batch).positions@[row]
                &&& now.request_slots@[row] == old(batch).request_slots@[row]
                &&& now.segment_offsets@ == old(batch).segment_offsets@.push(
                    (rows + length) as u32,
                )
                &&& now.segment_slots@ == old(batch).segment_slots@.push(slot)
                &&& now.output_rows@ == old(batch).output_rows@.push((rows + length - 1) as u32)
            }
        }),
{
}

/// A step prefills if any of its work does.
pub proof fn steps_prefill_if_any_work_does(work: &Vec<ScheduledWork>, r: bool, i: int)
    requires
        call_ensures(has_prefill_rows, (work,), r),
        0 <= i < work@.len(),
    ensures
        work@[i] is Prefill ==> r,
        (forall|k: int| 0 <= k < work@.len() ==> (#[trigger] work@[k]) is Decode) ==> !r,
{
}

/// A request whose tokens reach to its prompt's end, and whose prompt is not done, can always
/// be prefilled, and one with tokens can always be decoded, as long as the numbers fit.
pub proof fn sound_requests_can_be_run(
    work: &Vec<ScheduledWork>,
    slots: &RequestSlots,
    r: Result<RaggedBatch, StepError>,
)
    requires
        call_ensures(assemble_step_batch, (work, slots), r),
        work@.len() == 1,
        work@[0].slot_id().0 < slots@.len(),
        ({
            let request = slots@[work@[0].slot_id().0 as int];
            &&& 0 < request.tokens.len() <= u32::MAX
            &&& work@[0] is Prefill ==> work@[0]->Prefill_tokens > 0 && request.prefilled
                < request.prompt_len <= request.tokens.len()
        }),
    ensures
        r is Ok,
{
    let item = work@[0];
    assert(work@.drop_last() =~= Seq::<ScheduledWork>::empty());
    assert(work@.last() == item);
    reveal_with_fuel(crate::engine::batch::assembled, 2);
    let empty = crate::engine::batch::RaggedView::empty();
    assert(crate::engine::batch::assembled(Seq::<ScheduledWork>::empty(), slots@) == Ok::<
        crate::engine::batch::RaggedView,
        StepError,
    >(empty));
    assert(crate::engine::batch::extended(empty, item, slots@) is Ok);
}

/// Work that would run past the last page boundary below the end of its prompt stops there,
/// if it starts before it. All other work is left as it is.
pub proof fn prefill_stops_at_the_last_boundary(
    work: &mut Vec<ScheduledWork>,
    slots: &RequestSlots,
    page: usize,
    r: Result<(), StepError>,
    i: int,
    boundary: int,
)
    requires
        call_ensures(split_prefill_at_reusable_boundary, (work, slots, page), r),
        r is Ok,
        0 <= i < old(work)@.len(),
        old(work)@[i] is Prefill,
        page > 0,
        slots@[old(work)@[i]->Prefill_slot.0 as int].prompt_len > 0,
        boundary % page as int == 0,
        0 <= boundary < slots@[old(work)@[i]->Prefill_slot.0 as int].prompt_len <= boundary + page,
        slots@[old(work)@[i]->Prefill_slot.0 as int].prompt_len <= usize::MAX,
    ensures
        final(work)@.len() == old(work)@.len(),
        old(work)@[i]->Prefill_slot.0 < slots@.len(),
        ({
            let was = old(work)@[i];
            let now = final(work)@[i];
            let start = slots@[was->Prefill_slot.0 as int].prefilled;
            &&& now is Prefill
            &&& now->Prefill_slot == was->Prefill_slot
            &&& start < boundary < start + was->Prefill_tokens ==> start + now->Prefill_tokens
                == boundary
            &&& !(start < boundary < start + was->Prefill_tokens) ==> now == was
        }),
{
    let was = old(work)@[i];
    assert(crate::engine::owner::prefill_slot_known(was, slots@));
    assert(final(work)@[i] == crate::engine::owner::split_item(was, slots@, page as int));
    let prompt = slots@[was->Prefill_slot.0 as int].prompt_len as int;
    lemma_boundary(prompt, page as int, boundary);
}

proof fn lemma_boundary(prompt: int, page: int, boundary: int)
    requires
        prompt > 0,
        page > 0,
        boundary % page == 0,
        0 <= boundary < prompt <= boundary + page,
    ensures
        crate::cache::reusable_boundary(prompt, page) == boundary,
{
    assert((prompt - 1) / page == boundary / page && boundary / page * page == boundary)
        by (nonlinear_arith)
        requires
            prompt > 0,
            page > 0,
            boundary % page == 0,
            0 <= boundary < prompt <= boundary + page,
    ;
}

/// Work that decodes is never cut.
pub proof fn decodes_are_never_cut(
    work: &mut Vec<ScheduledWork>,
    slots: &RequestSlots,
    page: usize,
    r: Result<(), StepError>,
    i: int,
)
    requires
        call_ensures(split_prefill_at_reusable_boundary, (work, slots, page), r),
        r is Ok,
        0 <= i < old(work)@.len(),
        old(work)@[i] is Decode,
    ensures
        final(work)@[i] == old(work)@[i],
{
    assert(final(work)@[i] == crate::engine::owner::split_item(
        old(work)@[i],
        slots@,
        page as int,
    ));
}

/// Work for slots that are there is never refused.
pub proof fn known_work_is_never_refused(
    work: &mut Vec<ScheduledWork>,
    slots: &RequestSlots,
    page: usize,
    r: Result<(), StepError>,
)
    requires
        call_ensures(split_prefill_at_reusable_boundary, (work, slots, page), r),
        forall|i: int|
            0 <= i < old(work)@.len() ==> (#[trigger] old(work)@[i]).slot_id().0 < slots@.len(),
    ensures
        r is Ok,
{
    if r is Err {
        let k = choose|k: int|
            0 <= k < old(work)@.len() && !crate::engine::owner::prefill_slot_known(
                #[trigger] old(work)@[k],
                slots@,
            );
        assert(old(work)@[k].slot_id().0 < slots@.len());
    }
}

/// A prefix is looked up for a request that waits, was never scheduled, and still has a page
/// boundary of its prompt ahead; for the first such one, and up to the last boundary. The
/// lookup passes over nobody like that.
pub proof fn waiting_requests_look_up_their_prefix(
    slots: &RequestSlots,
    states: &Vec<ResponseState>,
    page: usize,
    start: usize,
    r: Result<Option<PrefixProbe>, StepError>,
    i: int,
    boundary: int,
)
    requires
        call_ensures(next_unscheduled_prefix, (slots, states, page, start), r),
        r is Ok,
        states@.len() == slots@.len(),
        start <= i < slots@.len(),
        page > 0,
        slots@[i].prompt_len > 0,
        boundary % page as int == 0,
        0 <= boundary < slots@[i].prompt_len <= boundary + page,
    ensures
        ({
            let waits = slots@[i].phase == RequestPhase::QueuedPrefill && !states@[i].first_scheduled
                && slots@[i].prefilled < boundary;
            &&& r->Ok_0 is Some ==> start <= r->Ok_0->0.index < slots@.len()
            &&& waits ==> r->Ok_0 is Some && r->Ok_0->0.index <= i
            &&& r->Ok_0 is Some && r->Ok_0->0.index == i ==> waits && r->Ok_0->0.limit == boundary
        }),
{
    lemma_boundary(slots@[i].prompt_len as int, page as int, boundary);
    if slots@[i].phase == RequestPhase::QueuedPrefill && !states@[i].first_scheduled
        && slots@[i].prefilled < boundary {
        assert(crate::engine::owner::wants_prefix(slots@, states@, page as int, i));
    }
}

/// A hit is taken if it is longer than what the request has, and then books its tokens and
/// gives the released pages back. Nothing else changes, and nobody else.
pub proof fn longer_hits_are_taken(
    before: &RequestSlots,
    slots: &mut RequestSlots,
    index: usize,
    hit: usize,
    released: usize,
    longer: bool,
    r: (),
    other: int,
)
    requires
        *before == *old(slots),
        index < old(slots)@.len(),
        call_ensures(extends_prefix, (before, index, hit), longer),
        call_ensures(record_shared_prefix, (slots, index, hit, released), r),
        0 <= other < old(slots)@.len(),
        other != index,
    ensures
        longer <==> hit > old(slots)@[index as int].prefilled,
        final(slots)@.len() == old(slots)@.len(),
        final(slots)@[other] == old(slots)@[other],
        ({
            let was = old(slots)@[index as int];
            let now = final(slots)@[index as int];
            &&& now.prefilled == hit
            &&& released <= was.reserved_pages ==> now.reserved_pages + released
                == was.reserved_pages
            &&& released > was.reserved_pages ==> now.reserved_pages == 0
            &&& now.phase == was.phase
            &&& now.prompt_len == was.prompt_len
            &&& now.tokens == was.tokens
        }),
{
}

/// What the owner does follows from what happened: requests are admitted as they come, an
/// idle owner waits, a busy one schedules, chosen work is run, and a closed queue ends it.
pub proof fn owners_act_on_what_happened(
    owner: &mut OwnerLoop,
    event: OwnerEvent,
    free: usize,
    r: OwnerAction,
)
    requires
        call_ensures(OwnerLoop::advance, (owner, event, free), r),
    ensures
        event == OwnerEvent::Received <==> r == OwnerAction::AdmitAndDrain,
        event == OwnerEvent::QueueClosed <==> r == OwnerAction::Stop,
        event == OwnerEvent::StepCompleted <==> r == OwnerAction::Drain,
        event == OwnerEvent::NothingQueued && free == old(owner).maximum_request_slots <==> r
            == OwnerAction::WaitForRequest,
        event == OwnerEvent::NothingQueued && free != old(owner).maximum_request_slots <==> r
            == OwnerAction::RefreshAndSchedule,
        event is Scheduled && event->items > 0 <==> r == OwnerAction::RunStep,
        event is Scheduled && event->items == 0 <==> r == OwnerAction::PauseAndDrain,
        r == OwnerAction::WaitForRequest <==> final(owner).phase == OwnerPhase::Waiting,
        r == OwnerAction::RefreshAndSchedule <==> final(owner).phase == OwnerPhase::Scheduling,
        r == OwnerAction::RunStep <==> final(owner).phase == OwnerPhase::Stepping,
        r == OwnerAction::Stop <==> final(owner).phase == OwnerPhase::Stopped,
        final(owner).maximum_request_slots == old(owner).maximum_request_slots,
{
}

/// The owner counts each step it runs, and the most requests it ever had at once; an event
/// changes no other total.
pub proof fn owners_count_steps_and_requests(
    owner: &mut OwnerLoop,
    event: OwnerEvent,
    free: usize,
    r: OwnerAction,
)
    requires
        call_ensures(OwnerLoop::advance, (owner, event, free), r),
        free <= old(owner).maximum_request_slots,
    ensures
        ({
            let was = old(owner).counters;
            let now = final(owner).counters;
            let active = old(owner).maximum_request_slots - free;
            &&& r == OwnerAction::RunStep && was.engine_steps < u64::MAX ==> now.engine_steps
                == was.engine_steps + 1
            &&& r != OwnerAction::RunStep ==> now.engine_steps == was.engine_steps
            &&& r == OwnerAction::RefreshAndSchedule && active > was.maximum_active_requests
                ==> now.maximum_active_requests == active
            &&& r != OwnerAction::RefreshAndSchedule || active <= was.maximum_active_requests
                ==> now.maximum_active_requests == was.maximum_active_requests
            &&& now.completed_requests == was.completed_requests
            &&& now.generated_tokens == was.generated_tokens
            &&& now.model_input_tokens == was.model_input_tokens
        }),
{
}

/// How many of the first `upto` rows gave a token.
pub open spec fn tokens_given(rows: Seq<RowOutcome>, upto: int) -> int
    decreases upto,
{
    if upto <= 0 {
        0
    } else {
        tokens_given(rows, upto - 1) + if rows[upto - 1].emission is Some {
            1int
        } else {
            0int
        }
    }
}

/// How many of the first `upto` rows ended their request.
pub open spec fn requests_ended(rows: Seq<RowOutcome>, upto: int) -> int
    decreases upto,
{
    if upto <= 0 {
        0
    } else {
        requests_ended(rows, upto - 1) + if rows[upto - 1].emission is Some
            && rows[upto - 1].emission->0.finish is Some {
            1int
        } else {
            0int
        }
    }
}

proof fn lemma_rows_counted(rows: Seq<RowOutcome>, upto: int)
    requires
        0 <= upto <= rows.len(),
    ensures
        crate::engine::owner::emitted_rows(rows.take(upto)) == tokens_given(rows, upto),
        crate::engine::owner::finished_rows(rows.take(upto)) == requests_ended(rows, upto),
    decreases upto,
{
    if upto > 0 {
        lemma_rows_counted(rows, upto - 1);
        assert(rows.take(upto).drop_last() =~= rows.take(upto - 1));
        assert(rows.take(upto).last() == rows[upto - 1]);
    }
}

/// The totals grow by the tokens that the rows of a step gave and by the requests that they
/// ended, and by the rows that were fed to the model.
pub proof fn owners_count_what_steps_give(
    owner: &mut OwnerLoop,
    rows: &Vec<RowOutcome>,
    r: (),
    other: &mut OwnerLoop,
    fed: usize,
    s: (),
)
    requires
        call_ensures(OwnerLoop::count_rows, (owner, rows), r),
        call_ensures(OwnerLoop::count_input_tokens, (other, fed), s),
        old(owner).counters.generated_tokens + tokens_given(rows@, rows@.len() as int) <= u64::MAX,
        old(owner).counters.completed_requests + requests_ended(rows@, rows@.len() as int)
            <= u64::MAX,
        old(other).counters.model_input_tokens + fed <= u64::MAX,
        fed <= u64::MAX,
    ensures
        ({
            let was = old(owner).counters;
            let now = final(owner).counters;
            &&& now.generated_tokens == was.generated_tokens + tokens_given(
                rows@,
                rows@.len() as int,
            )
            &&& now.completed_requests == was.completed_requests + requests_ended(
                rows@,
                rows@.len() as int,
            )
            &&& now.engine_steps == was.engine_steps
            &&& now.model_input_tokens == was.model_input_tokens
            &&& now.maximum_active_requests == was.maximum_active_requests
            &&& final(owner).phase == old(owner).phase
            &&& final(other).counters.model_input_tokens == old(other).counters.model_input_tokens
                + fed
            &&& final(other).counters.generated_tokens == old(other).counters.generated_tokens
            &&& final(other).phase == old(other).phase
        }),
{
    lemma_rows_counted(rows@, rows@.len() as int);
    assert(rows@.take(rows@.len() as int) =~= rows@);
    lemma_counts_are_natural(rows@, rows@.len() as int);
}

proof fn lemma_counts_are_natural(rows: Seq<RowOutcome>, upto: int)
    ensures
        0 <= requests_ended(rows, upto) <= tokens_given(rows, upto),
    decreases upto,
{
    if upto > 0 {
        lemma_counts_are_natural(rows, upto - 1);
    }
}

/// Prefixes may keep a quarter of the pages, rounded down, and always one.
pub proof fn prefixes_keep_a_quarter(pages: usize, r: usize)
    requires
        call_ensures(prefix_page_budget, (pages,), r),
    ensures
        r >= 1,
        pages >= 4 ==> 4 * r <= pages < 4 * r + 4,
        pages < 4 ==> r == 1,
{
}

/// The pages of all layers take two bytes for each element of keys and of values, as long as
/// that is a machine integer; and never more than that.
pub proof fn pages_take_two_bytes_an_element(
    pages: usize,
    layers: usize,
    heads: usize,
    page: usize,
    width: usize,
    r: usize,
)
    requires
        call_ensures(kv_arena_bytes, (pages, layers, heads, page, width), r),
        pages > 0,
        layers > 0,
        heads > 0,
        page > 0,
        width > 0,
        pages * layers * 2 * heads * page * width * 2 <= usize::MAX,
    ensures
        r == pages * layers * 2 * heads * page * width * 2,
{
    let a = pages * layers;
    let b = a * 2;
    let c = b * heads;
    let d = c * page;
    let e = d * width;
    assert(0 < a) by (nonlinear_arith)
        requires
            a == pages * layers,
            pages > 0,
            layers > 0,
    ;
    lemma_factor(b, heads as int);
    lemma_factor(c, page as int);
    lemma_factor(d, width as int);
    assert(r == crate::engine::owner::saturated_product(e, 2));
}

proof fn lemma_factor(a: int, b: int)
    by (nonlinear_arith)
    requires
        a > 0,
        b > 0,
    ensures
        a <= a * b,
        0 < a * b,
{
}

/// The pools keep two bytes for a bf16 element and one for an fp8 element.
pub proof fn pools_keep_their_elements(bf16: PoolStats, fp8: PoolStats, r: usize)
    requires
        call_ensures(retained_pool_bytes, (bf16, fp8), r),
        2 * bf16.available_elements + fp8.available_elements <= usize::MAX,
    ensures
        r == 2 * bf16.available_elements + fp8.available_elements,
{
}

/// How many of the first `upto` layers attend.
pub open spec fn layers_that_attend(kinds: Seq<String>, upto: int) -> int
    decreases upto,
{
    if upto <= 0 {
        0
    } else {
        layers_that_attend(kinds, upto - 1) + if kinds[upto - 1]@ == "full_attention"@ {
            1int
        } else {
            0int
        }
    }
}

proof fn lemma_layers_that_attend(kinds: Seq<String>, upto: int)
    requires
        0 <= upto <= kinds.len(),
    ensures
        attention_count(kinds.take(upto)) == layers_that_attend(kinds, upto),
    decreases upto,
{
    if upto > 0 {
        lemma_layers_that_attend(kinds, upto - 1);
        assert(kinds.take(upto).drop_last() =~= kinds.take(upto - 1));
        assert(kinds.take(upto).last() == kinds[upto - 1]);
    }
}

/// Layers that name full attention keep keys and values, and no others.
pub proof fn attention_is_named(kinds: &Vec<String>, r: usize)
    requires
        call_ensures(count_attention_layers, (kinds,), r),
    ensures
        r == layers_that_attend(kinds@, kinds@.len() as int),
{
    lemma_layers_that_attend(kinds@, kinds@.len() as int);
    assert(kinds@.take(kinds@.len() as int) =~= kinds@);
}

/// A serving engine has 64 slots, a batch for all of them and a chunk of 512, and a queue of
/// 128. It runs only on the device and with the pages that its profile was measured on. Its
/// pages fit what is free, less a tenth of the device or half a gibibyte and less what the
/// temporary buffers take; but one page there always is, and never more than the slots can
/// use.
pub proof fn engines_fit_their_device(
    model: HardwareCostModel,
    scheduler: SchedulerConfig,
    gpu: &str,
    page_size: KvPageSize,
    geometry: KvGeometry,
    free: usize,
    total: usize,
    r: Result<ContinuousEngineConfig, ConfigError>,
    page: int,
    page_bytes: int,
    reserve: int,
    sequence: int,
)
    requires
        geometry.attention_layers > 0,
        geometry.key_value_heads > 0,
        geometry.head_dim > 0,
        call_ensures(
            ContinuousEngineConfig::continuous_config,
            (model, scheduler, gpu, page_size, geometry, free, total),
            r,
        ),
        r is Ok,
        page == page_size.tokens(),
        page_bytes == geometry.attention_layers * 2 * geometry.key_value_heads * page
            * geometry.head_dim * 2,
        reserve == (if total / 10 >= 536_870_912 {
            total as int / 10
        } else {
            536_870_912
        }) + 2 * 67_108_864 + 33_554_432,
        sequence == (if geometry.max_position_embeddings < 32_768 {
            geometry.max_position_embeddings as int
        } else {
            32_768
        }),
    ensures
        ({
            let config = r->Ok_0;
            let pages = config.physical_kv_pages as int;
            &&& gpu@ == model.gpu_name@
            &&& model.page_size == page
            &&& model.schema_version == 1
            &&& config.maximum_request_slots == 64
            &&& config.maximum_batch_tokens == 64 + 512
            &&& config.queue_capacity == 128
            &&& config.maximum_sequence_tokens == sequence
            &&& config.scheduler == scheduler
            &&& config.cost_model == model
            &&& !config.trace_steps
            &&& pages >= 1
            &&& pages > 1 ==> pages * page_bytes + reserve <= free
            &&& pages > 1 ==> (pages - 64) * page < 64 * sequence
            &&& (pages + 1) * page_bytes + reserve <= free ==> pages * page >= 64 * sequence
        }),
{
    let config = r->Ok_0;
    let pages = config.physical_kv_pages as int;
    let useful = 64 * crate::num::ceil_div(sequence, page);
    crate::num::ceil_div_covers(sequence, page);
    let budget = crate::engine::config::kv_budget(free as int, total as int);
    assert(page == 16 || page == 32);
    assert(page_bytes > 0) by {
        let a = geometry.attention_layers * 2;
        lemma_factor(a, geometry.key_value_heads as int);
        lemma_factor(a * geometry.key_value_heads, page);
        lemma_factor(a * geometry.key_value_heads * page, geometry.head_dim as int);
    }
    let held = budget / page_bytes;
    assert(held * page_bytes <= budget && budget < held * page_bytes + page_bytes)
        by (nonlinear_arith)
        requires
            held == budget / page_bytes,
            page_bytes > 0,
            budget >= 0,
    ;
    if pages > 1 {
        assert(pages <= held && pages <= useful);
        assert(pages * page_bytes <= held * page_bytes) by (nonlinear_arith)
            requires
                pages <= held,
                page_bytes > 0,
        ;
    }
    if (pages + 1) * page_bytes + reserve <= free {
        assert(pages < held) by (nonlinear_arith)
            requires
                (pages + 1) * page_bytes <= budget,
                budget < held * page_bytes + page_bytes,
                page_bytes > 0,
        ;
        assert(pages >= useful);
    }
}

/// Each reason not to make a configuration is told, the wrong device first.
pub proof fn wrong_profiles_are_refused(
    model: HardwareCostModel,
    scheduler: SchedulerConfig,
    gpu: &str,
    page_size: KvPageSize,
    geometry: KvGeometry,
    free: usize,
    total: usize,
    r: Result<ContinuousEngineConfig, ConfigError>,
)
    requires
        call_ensures(
            ContinuousEngineConfig::continuous_config,
            (model, scheduler, gpu, page_size, geometry, free, total),
            r,
        ),
    ensures
        gpu@ != model.gpu_name@ ==> r is Err && r->Err_0 == ConfigError::WrongGpu,
        gpu@ == model.gpu_name@ && model.page_size != page_size.tokens() ==> r is Err && r->Err_0
            is WrongPageSize,
        gpu@ == model.gpu_name@ && model.page_size == page_size.tokens() && model.schema_version
            != 1 ==> r is Err && r->Err_0 is UnsupportedSchema,
        gpu@ == model.gpu_name@ && model.page_size == page_size.tokens() && model.schema_version
            == 1 && r is Err ==> r->Err_0 == ConfigError::PageBytesOverflow || r->Err_0
            == ConfigError::PageCountOverflow,
{
}

/// An engine can run if it has slots and its batch holds a token of each and a whole chunk.
pub proof fn batches_hold_every_slot_and_a_chunk(
    config: &ContinuousEngineConfig,
    r: Result<(), ConfigError>,
)
    requires
        call_ensures(ContinuousEngineConfig::check_capacity, (config,), r),
    ensures
        r is Ok <==> config.maximum_request_slots > 0 && config.maximum_request_slots
            + config.scheduler.maximum_prefill_tokens <= config.maximum_batch_tokens,
        r is Err ==> (r->Err_0 == ConfigError::NoRequestSlots <==> config.maximum_request_slots
            == 0),
        r is Err ==> (r->Err_0 == ConfigError::BatchTooSmall <==> config.maximum_request_slots
            > 0),
{
}

proof fn lemma_warmup_decodes(bos: u32, slots: int, i: int)
    requires
        0 <= i < slots <= u32::MAX,
    ensures
        ({
            let b = warmup_decodes(bos, slots);
            &&& b.token_ids.len() == slots
            &&& b.positions.len() == slots
            &&& b.request_slots.len() == slots
            &&& b.segment_offsets.len() == slots + 1
            &&& b.segment_slots.len() == slots
            &&& b.output_rows.len() == slots
            &&& b.token_ids[i] == bos
            &&& b.positions[i] == 0
            &&& b.request_slots[i] == i
            &&& b.segment_offsets[i] == i
            &&& b.segment_offsets[i + 1] == i + 1
            &&& b.segment_slots[i] == i
            &&& b.output_rows[i] == i
        }),
    decreases slots,
{
    if slots == 1 {
        assert(warmup_decodes(bos, 0) == crate::engine::batch::RaggedView::empty());
    } else if i < slots - 1 {
        lemma_warmup_decodes(bos, slots - 1, i);
    } else {
        lemma_warmup_decodes(bos, slots - 1, slots - 2);
    }
}

/// The warm-up runs one token in every slot but the last and a chunk in the last, each
/// request from its first position, in one batch that the engine can hold.
pub proof fn warmups_use_every_slot(
    slots: usize,
    batch: usize,
    prefill: usize,
    bos: u32,
    r: Result<WarmupPlan, WarmupError>,
    i: int,
    p: int,
)
    requires
        call_ensures(plan_warmup, (slots, batch, prefill, bos), r),
        r is Ok,
        0 <= i < slots - 1,
        0 <= p < prefill,
    ensures
        ({
            let plan = r->Ok_0;
            let decodes = slots - 1;
            let b = plan.batch;
            &&& plan.decode_slots == decodes
            &&& plan.prefill_tokens == prefill
            &&& decodes + prefill <= batch
            &&& b.token_ids@.len() == decodes + prefill
            &&& b.token_ids@[i] == bos
            &&& b.positions@[i] == 0
            &&& b.request_slots@[i] == i
            &&& b.request_slots@[decodes + p] == decodes
            &&& b.positions@[decodes + p] == p
            &&& p == 0 ==> b.token_ids@[decodes + p] == bos
            &&& b.segment_slots@.len() == slots
            &&& b.segment_slots@[decodes] == decodes
            &&& b.segment_offsets@[decodes] == decodes
            &&& b.segment_offsets@[slots as int] == decodes + prefill
            &&& b.output_rows@[i] == i
            &&& b.output_rows@[decodes] == decodes + prefill - 1
        }),
{
    lemma_warmup_decodes(bos, slots - 1, i);
    lemma_warmup_decodes(bos, slots - 1, slots - 2);
}

/// A warm-up with a token, and no more than a batch holds, is planned.
pub proof fn fitting_warmups_are_planned(
    slots: usize,
    batch: usize,
    prefill: usize,
    bos: u32,
    r: Result<WarmupPlan, WarmupError>,
)
    requires
        call_ensures(plan_warmup, (slots, batch, prefill, bos), r),
        slots > 0,
        slots - 1 + prefill <= u32::MAX,
        (u32::MAX as int) <= usize::MAX,
    ensures
        r is Ok <==> 0 < slots - 1 + prefill <= batch,
        r is Err ==> r->Err_0 == WarmupError::InvalidShape,
{
}

/// A warm-up is sound if neither pool dropped anything while it ran.
pub proof fn warmups_drop_nothing(
    bf16_before: PoolStats,
    bf16_after: PoolStats,
    fp8_before: PoolStats,
    fp8_after: PoolStats,
    r: Result<(), WarmupError>,
)
    requires
        call_ensures(check_warmup_pools, (bf16_before, bf16_after, fp8_before, fp8_after), r),
    ensures
        r is Ok <==> bf16_after.dropped_elements <= bf16_before.dropped_elements
            && fp8_after.dropped_elements <= fp8_before.dropped_elements,
        bf16_after.dropped_elements > bf16_before.dropped_elements ==> r == Err::<(), WarmupError>(
            WarmupError::Bf16Dropped {
                elements: (bf16_after.dropped_elements - bf16_before.dropped_elements) as u64,
            },
        ),
        bf16_after.dropped_elements <= bf16_before.dropped_elements && fp8_after.dropped_elements
            > fp8_before.dropped_elements ==> r == Err::<(), WarmupError>(
            WarmupError::Fp8Dropped {
                elements: (fp8_after.dropped_elements - fp8_before.dropped_elements) as u64,
            },
        ),
{
}

/// The clock counts microseconds until it can count no more.
pub proof fn the_clock_counts_on(elapsed: u128, r: u64)
    requires
        call_ensures(monotonic_us, (elapsed,), r),
    ensures
        elapsed <= u64::MAX ==> r == elapsed,
        elapsed > u64::MAX ==> r == u64::MAX,
{
}

/// What contracts say of a generation is what it holds.
pub proof fn generations_show_their_fields(generation: &Generation)
    ensures
        generation@.generated == generation.generated@,
        generation@.history == generation.history@,
        generation@.max_new_tokens == generation.max_new_tokens,
        generation@.eos_token_id == generation.eos_token_id,
        generation@.ignore_eos == generation.ignore_eos,
        generation@.finish_reason == generation.finish_reason,
        generation@.finished == generation.finished,
{
}

/// A generation starts with its prompt as history and nothing generated.
pub proof fn generations_start_behind_the_prompt(
    prompt: Vec<u32>,
    most: usize,
    eos: u32,
    ignore: bool,
    r: Generation,
)
    requires
        call_ensures(Generation::begin, (prompt, most, eos, ignore), r),
    ensures
        r.history@ == prompt@,
        r.generated@.len() == 0,
        r.max_new_tokens == most,
        r.eos_token_id == eos,
        r.ignore_eos == ignore,
        !r.finished,
{
}

/// A token that ends the text is not kept, and stops the generation, unless it is to be
/// ignored. Any other is kept and run next, until as many are kept as may be.
pub proof fn generations_take_tokens_in(
    generation: &mut Generation,
    token: u32,
    r: GenerationAction,
)
    requires
        old(generation).generated@.len() < old(generation).max_new_tokens,
        !old(generation).finished,
        call_ensures(Generation::take_token, (generation, token), r),
    ensures
        ({
            let was = *old(generation);
            let now = *final(generation);
            let stops = token == was.eos_token_id && !was.ignore_eos;
            &&& stops ==> now.generated@ == was.generated@ && now.history@ == was.history@
                && now.finish_reason == FinishReason::Stop && now.finished && r
                == GenerationAction::Done
            &&& !stops ==> now.generated@ == was.generated@.push(token) && now.history@
                == was.history@.push(token) && now.finish_reason == was.finish_reason
            &&& !stops && was.generated@.len() + 1 < was.max_new_tokens ==> !now.finished && r == (
            GenerationAction::Decode { token })
            &&& !stops && was.generated@.len() + 1 == was.max_new_tokens ==> now.finished && r
                == GenerationAction::Done
            &&& now.max_new_tokens == was.max_new_tokens
            &&& now.eos_token_id == was.eos_token_id
            &&& now.ignore_eos == was.ignore_eos
        }),
{
}

/// Readers see every token but the one that ends a text.
pub proof fn readers_see_all_but_the_end(generation: &Generation, token: u32, r: bool)
    requires
        call_ensures(Generation::is_visible, (generation, token), r),
    ensures
        r <==> token != generation.eos_token_id,
{
}

/// A request needs room for its prompt and its answer, within the model's positions.
pub proof fn requests_need_room_for_both(
    prompt: usize,
    answer: usize,
    limit: usize,
    r: Result<usize, GenerationError>,
)
    requires
        call_ensures(sequence_capacity, (prompt, answer, limit), r),
    ensures
        r is Ok <==> prompt > 0 && prompt + answer <= limit,
        r is Ok ==> r->Ok_0 == prompt + answer,
        prompt == 0 ==> r->Err_0 == GenerationError::EmptyPrompt,
        prompt > 0 && limit < prompt + answer <= usize::MAX ==> r->Err_0 == (
        GenerationError::LengthExceedsModel { capacity: (prompt + answer) as usize, limit }),
{
}

/// A generation is prepared if it may generate, its sampling is sound, and a profile that is
/// asked for has steps. It is measured exactly if a profile is asked for.
pub proof fn sound_generations_are_prepared(
    options: GenerationOptions,
    profile: DecodeProfileMode,
    warmup: usize,
    steps: usize,
    r: Result<GenerationTools, GenerationError>,
)
    requires
        call_ensures(prepare_generation, (options, profile, warmup, steps), r),
    ensures
        options.max_new_tokens == 0 ==> r is Err && r->Err_0 == GenerationError::NoNewTokens,
        options.max_new_tokens > 0 && options.sampling.defect() is Some ==> r is Err && r->Err_0
            == GenerationError::Sampling(options.sampling.defect()->0),
        r is Ok <==> options.max_new_tokens > 0 && options.sampling.defect() is None && (profile
            == DecodeProfileMode::Off || steps > 0),
        r is Ok ==> {
            &&& r->Ok_0.sampler.configuration() == options.sampling
            &&& r->Ok_0.recorder is Some <==> profile != DecodeProfileMode::Off
            &&& r->Ok_0.recorder is Some ==> {
                let recorder = r->Ok_0.recorder->0@;
                &&& recorder.mode == profile
                &&& recorder.warmup_steps == warmup
                &&& recorder.max_profile_steps == steps
                &&& recorder.seen_steps == 0
                &&& recorder.decode_steps == 0
                &&& !recorder.step_open
            }
        },
{
}

} // verus!
