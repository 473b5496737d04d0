//! The owner loop of continuous serving: batches, step results and control flow.
use vstd::prelude::*;

use crate::cache::reusable_limit;
use crate::engine::step::{PoolStats, ResponseState};
use crate::num::max_usize;
use crate::scheduler::{RequestPhase, RequestSlots, ScheduledWork};
#[allow(unused_imports)]
use crate::scheduler::RequestView;

verus! {

/// Why an engine step cannot be formed or applied.
#[derive(Clone, Copy, Debug, PartialEq, Eq, Structural)]
pub enum StepError {
    /// The work names a slot that the table does not have.
    UnknownSlot,
    /// The end of a scheduled token range is not a machine integer.
    RangeOverflow,
    /// A scheduled token range ends behind the tokens of its request.
    RangeExceedsRequest,
    /// A position, offset or row does not fit in 32 bits.
    IndexOverflow,
}

/// The tokens of one work item after it has been cut at the reusable boundary.
pub open spec fn split_item(item: ScheduledWork, slots: Seq<RequestView>, page_size: int) -> ScheduledWork {
    match item {
        ScheduledWork::Decode { .. } => item,
        ScheduledWork::Prefill { slot, tokens } => {
            let request = slots[slot.0 as int];
            let boundary = crate::cache::reusable_boundary(request.prompt_len as int, page_size);
            if request.prefilled < boundary && request.prefilled + tokens > boundary {
                ScheduledWork::Prefill { slot, tokens: (boundary - request.prefilled) as usize }
            } else {
                item
            }
        },
    }
}

/// A decode item, or a prefill item whose slot exists.
pub open spec fn prefill_slot_known(item: ScheduledWork, slots: Seq<RequestView>) -> bool {
    item is Prefill ==> item.slot_id().0 < slots.len()
}

/// Shortens prefill work so that it ends at the reusable page boundary of its prompt
/// instead of running across it, which gives the step a prefix worth publishing.
pub fn split_prefill_at_reusable_boundary(
    work: &mut Vec<ScheduledWork>,
    slots: &RequestSlots,
    page_size: usize,
) -> (r: Result<(), StepError>)
    ensures
        final(work)@.len() == old(work)@.len(),
        match r {
            Ok(()) => {
                &&& forall|i: int|
                    0 <= i < old(work)@.len() ==> prefill_slot_known(#[trigger] old(work)@[i], slots@)
                &&& forall|i: int|
                    0 <= i < old(work)@.len() ==> #[trigger] final(work)@[i] == split_item(
                        old(work)@[i],
                        slots@,
                        page_size as int,
                    )
            },
            Err(e) => e == StepError::UnknownSlot && exists|k: int|
                {
                    &&& 0 <= k < old(work)@.len()
                    &&& !prefill_slot_known(#[trigger] old(work)@[k], slots@)
                    &&& forall|i: int|
                        0 <= i < k ==> #[trigger] final(work)@[i] == split_item(
                            old(work)@[i],
                            slots@,
                            page_size as int,
                        )
                    &&& forall|i: int|
                        0 <= i < k ==> prefill_slot_known(#[trigger] old(work)@[i], slots@)
                    &&& forall|i: int|
                        k <= i < old(work)@.len() ==> #[trigger] final(work)@[i] == old(work)@[i]
                },
        },
{
    let ghost before = work@;
    let mut index: usize = 0;
    while index < work.len()
        invariant
            index <= before.len(),
            work@.len() == before.len(),
            forall|i: int| 0 <= i < index ==> prefill_slot_known(#[trigger] before[i], slots@),
            forall|i: int|
                0 <= i < index ==> #[trigger] work@[i] == split_item(
                    before[i],
                    slots@,
                    page_size as int,
                ),
            forall|i: int| index <= i < before.len() ==> #[trigger] work@[i] == before[i],
            before == old(work)@,
        decreases before.len() - index,
    {
        let item = work[index];
        if let ScheduledWork::Prefill { slot, tokens } = item {
            match slots.get(slot) {
                Some(request) => {
                    let boundary: usize = reusable_limit(request.prompt_len, page_size);
                    if request.prefilled < boundary && tokens > boundary - request.prefilled {
                        work.set(
                            index,
                            ScheduledWork::Prefill { slot, tokens: boundary - request.prefilled },
                        );
                    }
                },
                None => {
                    assert(!prefill_slot_known(before[index as int], slots@));
                    return Err(StepError::UnknownSlot);
                },
            }
        }
        index = index + 1;
    }
    Ok(())
}

/// Splitting never makes work longer, never empties it, and leaves no prefill that
/// starts below the reusable boundary and ends behind it.
pub proof fn split_keeps_progress(item: ScheduledWork, slots: Seq<RequestView>, page_size: int)
    requires
        item is Prefill,
        0 <= page_size,
        slots[item.slot_id().0 as int].prompt_len <= usize::MAX,
    ensures
        ({
            let request = slots[item.slot_id().0 as int];
            let boundary = crate::cache::reusable_boundary(request.prompt_len as int, page_size);
            let split = split_item(item, slots, page_size);
            &&& split is Prefill
            &&& split.slot_id() == item.slot_id()
            &&& split->tokens <= item->tokens
            &&& item->tokens > 0 ==> split->tokens > 0
            &&& request.prefilled < boundary ==> request.prefilled + split->tokens <= boundary
        }),
{
    let request = slots[item.slot_id().0 as int];
    if request.prompt_len > 0 && page_size > 0 {
        crate::cache::reusable_boundary_is_last_page_below_prompt(
            request.prompt_len as int,
            page_size,
            0,
        );
    }
}

/// The slot at `index` waits for its first step with a prefix worth looking up: it is
/// queued, never scheduled, and its reusable boundary lies behind what it has.
pub open spec fn wants_prefix(
    slots: Seq<RequestView>,
    states: Seq<ResponseState>,
    page_size: int,
    index: int,
) -> bool {
    let request = slots[index];
    &&& 0 <= index < slots.len()
    &&& !states[index].first_scheduled
    &&& request.phase == RequestPhase::QueuedPrefill
    &&& request.prefilled < crate::cache::reusable_boundary(request.prompt_len as int, page_size)
}

/// No slot from `start` on waits for its first step with a prefix worth looking up.
pub open spec fn nobody_wants_prefix(
    slots: Seq<RequestView>,
    states: Seq<ResponseState>,
    page_size: int,
    start: int,
) -> bool {
    forall|i: int| start <= i ==> !#[trigger] wants_prefix(slots, states, page_size, i)
}

/// A prefix lookup to make: for the request in slot `index`, up to `limit` tokens.
#[derive(Clone, Copy, Debug, PartialEq, Eq, Structural)]
pub struct PrefixProbe {
    pub index: usize,
    pub limit: usize,
}

/// The next slot, from `start` on, whose prefix should be looked up before it is first
/// scheduled.
pub fn next_unscheduled_prefix(
    slots: &RequestSlots,
    states: &Vec<ResponseState>,
    page_size: usize,
    start: usize,
) -> (r: Result<Option<PrefixProbe>, StepError>)
    requires
        states@.len() == slots@.len(),
    ensures
        match r {
            Ok(Some(probe)) => {
                &&& start <= probe.index < slots@.len()
                &&& wants_prefix(slots@, states@, page_size as int, probe.index as int)
                &&& probe.limit == crate::cache::reusable_boundary(
                    slots@[probe.index as int].prompt_len as int,
                    page_size as int,
                )
                &&& forall|i: int|
                    start <= i < probe.index ==> !#[trigger] wants_prefix(
                        slots@,
                        states@,
                        page_size as int,
                        i,
                    )
                &&& probe.index <= u32::MAX
            },
            Ok(None) => {
                &&& nobody_wants_prefix(slots@, states@, page_size as int, start as int)
                &&& forall|i: int|
                    start <= i < slots@.len() && i > u32::MAX ==> (
                    #[trigger] states@[i]).first_scheduled
            },
            Err(e) => e == StepError::IndexOverflow && exists|i: int|
                {
                    &&& start <= i < slots@.len()
                    &&& i > u32::MAX
                    &&& !(#[trigger] states@[i]).first_scheduled
                    &&& forall|j: int|
                        start <= j < i ==> !#[trigger] wants_prefix(
                            slots@,
                            states@,
                            page_size as int,
                            j,
                        )
                },
        },
{
    let mut index: usize = start;
    while index < slots.entries.len()
        invariant
            start <= index,
            states@.len() == slots@.len(),
            forall|i: int|
                start <= i < index && i > u32::MAX ==> (#[trigger] states@[i]).first_scheduled,
            forall|i: int|
                start <= i < index ==> !#[trigger] wants_prefix(
                    slots@,
                    states@,
                    page_size as int,
                    i,
                ),
        decreases slots@.len() - index,
    {
        if !states[index].first_scheduled {
            if index > u32::MAX as usize {
                assert(!states@[index as int].first_scheduled);
                return Err(StepError::IndexOverflow);
            }
            let request = &slots.entries[index];
            assert(slots@[index as int] == request@);
            if request.phase == RequestPhase::QueuedPrefill {
                let limit: usize = reusable_limit(request.prompt_len, page_size);
                if limit > request.prefilled {
                    return Ok(Some(PrefixProbe { index, limit }));
                }
            }
        }
        index = index + 1;
    }
    Ok(None)
}

/// Whether a prefix hit of `hit_tokens` is longer than what slot `index` already has.
pub fn extends_prefix(slots: &RequestSlots, index: usize, hit_tokens: usize) -> (r: bool)
    requires
        index < slots@.len(),
    ensures
        r == (hit_tokens > slots@[index as int].prefilled),
{
    hit_tokens > slots.entries[index].prefilled
}

/// Records that slot `index` now shares a cached prefix of `hit_tokens`, which gave back
/// `released` of its reserved pages.
pub fn record_shared_prefix(slots: &mut RequestSlots, index: usize, hit_tokens: usize, released: usize)
    requires
        index < old(slots)@.len(),
    ensures
        final(slots)@ == old(slots)@.update(
            index as int,
            RequestView {
                prefilled: hit_tokens as nat,
                reserved_pages: crate::num::max_int(
                    old(slots)@[index as int].reserved_pages - released,
                    0,
                ) as nat,
                ..old(slots)@[index as int]
            },
        ),
{
    let ghost before = slots@;
    slots.entries[index].prefilled = hit_tokens;
    slots.entries[index].reserved_pages =
    slots.entries[index].reserved_pages.saturating_sub(released);
    assert(slots@ =~= before.update(
        index as int,
        RequestView {
            prefilled: hit_tokens as nat,
            reserved_pages: crate::num::max_int(
                before[index as int].reserved_pages - released,
                0,
            ) as nat,
            ..before[index as int]
        },
    ));
}

/// Where the owner loop stands.
#[derive(Clone, Copy, Debug, PartialEq, Eq, Structural)]
pub enum OwnerPhase {
    /// Taking queued requests without waiting.
    Draining,
    /// Waiting for a request because none is active.
    Waiting,
    /// Asking the scheduler for work.
    Scheduling,
    /// Running a step on the device.
    Stepping,
    Stopped,
}

/// What happened since the owner's last action.
#[derive(Clone, Copy, Debug, PartialEq, Eq, Structural)]
pub enum OwnerEvent {
    /// The queue handed over a request.
    Received,
    /// The queue had nothing to hand over at once.
    NothingQueued,
    /// Every sender is gone and the queue is empty.
    QueueClosed,
    /// The scheduler chose this many work items.
    Scheduled { items: usize },
    /// The step and its finished requests have been handled.
    StepCompleted,
}

/// What the owner does next.
#[derive(Clone, Copy, Debug, PartialEq, Eq, Structural)]
pub enum OwnerAction {
    /// Admit or refuse the received request, then take the next one if it is there.
    AdmitAndDrain,
    /// Take a request if one is there.
    Drain,
    /// Block until a request arrives or the queue closes.
    WaitForRequest,
    /// Refresh prefixes of unscheduled requests, then ask the scheduler for work.
    RefreshAndSchedule,
    /// Nothing can run now: sleep for a moment, then drain again.
    PauseAndDrain,
    /// Run the scheduled work.
    RunStep,
    /// Report and end.
    Stop,
}

/// Totals of an owner's life.
#[derive(Clone, Copy, Debug, PartialEq, Eq, Structural)]
pub struct OwnerCounters {
    pub engine_steps: u64,
    pub completed_requests: u64,
    pub generated_tokens: u64,
    pub model_input_tokens: u64,
    pub maximum_active_requests: usize,
}

/// The loop that owns the device: its phase and its totals.
#[derive(Clone, Copy, Debug, PartialEq, Eq, Structural)]
pub struct OwnerLoop {
    pub phase: OwnerPhase,
    pub counters: OwnerCounters,
    pub maximum_request_slots: usize,
}

impl OwnerLoop {
    /// The owner before its first look at the queue.
    pub fn new(maximum_request_slots: usize) -> (r: Self)
        ensures
            r.phase == OwnerPhase::Draining,
            r.maximum_request_slots == maximum_request_slots,
            r.counters == (OwnerCounters {
                engine_steps: 0,
                completed_requests: 0,
                generated_tokens: 0,
                model_input_tokens: 0,
                maximum_active_requests: 0,
            }),
    {
        OwnerLoop {
            phase: OwnerPhase::Draining,
            counters: OwnerCounters {
                engine_steps: 0,
                completed_requests: 0,
                generated_tokens: 0,
                model_input_tokens: 0,
                maximum_active_requests: 0,
            },
            maximum_request_slots,
        }
    }

    /// The events that can occur in the current phase.
    pub open spec fn expects(self, event: OwnerEvent) -> bool {
        match self.phase {
            OwnerPhase::Draining => event == OwnerEvent::Received || event
                == OwnerEvent::NothingQueued,
            OwnerPhase::Waiting => event == OwnerEvent::Received || event
                == OwnerEvent::QueueClosed,
            OwnerPhase::Scheduling => event is Scheduled,
            OwnerPhase::Stepping => event == OwnerEvent::StepCompleted,
            OwnerPhase::Stopped => false,
        }
    }

    /// Phase and action that follow `event`.
    pub open spec fn reaction(self, event: OwnerEvent, free_slots: usize) -> (OwnerPhase, OwnerAction) {
        match event {
            OwnerEvent::Received => (OwnerPhase::Draining, OwnerAction::AdmitAndDrain),
            OwnerEvent::NothingQueued => if free_slots == self.maximum_request_slots {
                (OwnerPhase::Waiting, OwnerAction::WaitForRequest)
            } else {
                (OwnerPhase::Scheduling, OwnerAction::RefreshAndSchedule)
            },
            OwnerEvent::QueueClosed => (OwnerPhase::Stopped, OwnerAction::Stop),
            OwnerEvent::Scheduled { items } => if items == 0 {
                (OwnerPhase::Draining, OwnerAction::PauseAndDrain)
            } else {
                (OwnerPhase::Stepping, OwnerAction::RunStep)
            },
            OwnerEvent::StepCompleted => (OwnerPhase::Draining, OwnerAction::Drain),
        }
    }

    /// Totals after `event`.
    pub open spec fn counted(self, event: OwnerEvent, free_slots: usize) -> OwnerCounters {
        match event {
            OwnerEvent::NothingQueued => if free_slots == self.maximum_request_slots {
                self.counters
            } else {
                OwnerCounters {
                    maximum_active_requests: crate::num::max_int(
                        self.counters.maximum_active_requests as int,
                        self.maximum_request_slots - free_slots,
                    ) as usize,
                    ..self.counters
                }
            },
            OwnerEvent::Scheduled { items } => if items == 0 {
                self.counters
            } else {
                OwnerCounters {
                    engine_steps: self.counters.engine_steps.saturating_add(1),
                    ..self.counters
                }
            },
            _ => self.counters,
        }
    }

    /// Takes an event and says what to do next. `free_slots` is the number of request
    /// slots that hold no request.
    pub fn advance(&mut self, event: OwnerEvent, free_slots: usize) -> (r: OwnerAction)
        requires
            old(self).expects(event),
        ensures
            (final(self).phase, r) == old(self).reaction(event, free_slots),
            final(self).counters == old(self).counted(event, free_slots),
            final(self).maximum_request_slots == old(self).maximum_request_slots,
    {
        match event {
            OwnerEvent::Received => {
                self.phase = OwnerPhase::Draining;
                OwnerAction::AdmitAndDrain
            },
            OwnerEvent::NothingQueued => {
                if free_slots == self.maximum_request_slots {
                    self.phase = OwnerPhase::Waiting;
                    return OwnerAction::WaitForRequest;
                }
                let active: usize = self.maximum_request_slots.saturating_sub(free_slots);
                self.counters.maximum_active_requests =
                max_usize(self.counters.maximum_active_requests, active);
                self.phase = OwnerPhase::Scheduling;
                OwnerAction::RefreshAndSchedule
            },
            OwnerEvent::QueueClosed => {
                self.phase = OwnerPhase::Stopped;
                OwnerAction::Stop
            },
            OwnerEvent::Scheduled { items } => {
                if items == 0 {
                    self.phase = OwnerPhase::Draining;
                    return OwnerAction::PauseAndDrain;
                }
                self.counters.engine_steps = self.counters.engine_steps.saturating_add(1);
                self.phase = OwnerPhase::Stepping;
                OwnerAction::RunStep
            },
            OwnerEvent::StepCompleted => {
                self.phase = OwnerPhase::Draining;
                OwnerAction::Drain
            },
        }
    }

    /// Counts the rows that a step fed to the model.
    pub fn count_input_tokens(&mut self, rows: usize)
        ensures
            *final(self) == (OwnerLoop {
                counters: OwnerCounters {
                    model_input_tokens: old(self).counters.model_input_tokens.saturating_add(
                        rows as u64,
                    ),
                    ..old(self).counters
                },
                ..*old(self)
            }),
    {
        self.counters.model_input_tokens =
        self.counters.model_input_tokens.saturating_add(rows as u64);
    }

    /// Counts what the rows of a completed step emitted and finished.
    pub fn count_rows(&mut self, rows: &Vec<crate::engine::step::RowOutcome>)
        ensures
            *final(self) == (OwnerLoop {
                counters: OwnerCounters {
                    generated_tokens: crate::num::min_int(
                        old(self).counters.generated_tokens + emitted_rows(rows@),
                        u64::MAX as int,
                    ) as u64,
                    completed_requests: crate::num::min_int(
                        old(self).counters.completed_requests + finished_rows(rows@),
                        u64::MAX as int,
                    ) as u64,
                    ..old(self).counters
                },
                ..*old(self)
            }),
    {
        let ghost before = *self;
        let mut index: usize = 0;
        while index < rows.len()
            invariant
                index <= rows@.len(),
                before == *old(self),
                *self == (OwnerLoop {
                    counters: OwnerCounters {
                        generated_tokens: crate::num::min_int(
                            before.counters.generated_tokens + emitted_rows(
                                rows@.take(index as int),
                            ),
                            u64::MAX as int,
                        ) as u64,
                        completed_requests: crate::num::min_int(
                            before.counters.completed_requests + finished_rows(
                                rows@.take(index as int),
                            ),
                            u64::MAX as int,
                        ) as u64,
                        ..before.counters
                    },
                    ..before
                }),
                emitted_rows(rows@.take(index as int)) >= 0,
                finished_rows(rows@.take(index as int)) >= 0,
            decreases rows@.len() - index,
        {
            proof {
                let upto = rows@.take(index + 1);
                assert(upto.drop_last() =~= rows@.take(index as int));
                assert(upto.last() == rows@[index as int]);
            }
            if let Some(emission) = rows[index].emission {
                self.counters.generated_tokens = self.counters.generated_tokens.saturating_add(1);
                if emission.finish.is_some() {
                    self.counters.completed_requests =
                    self.counters.completed_requests.saturating_add(1);
                }
            }
            index = index + 1;
        }
        assert(rows@.take(index as int) =~= rows@);
    }
}

/// How many rows produced a token.
pub open spec fn emitted_rows(rows: Seq<crate::engine::step::RowOutcome>) -> int
    decreases rows.len(),
{
    if rows.len() == 0 {
        0
    } else {
        emitted_rows(rows.drop_last()) + if rows.last().emission is Some {
            1int
        } else {
            0int
        }
    }
}

/// How many rows finished their request.
pub open spec fn finished_rows(rows: Seq<crate::engine::step::RowOutcome>) -> int
    decreases rows.len(),
{
    if rows.len() == 0 {
        0
    } else {
        finished_rows(rows.drop_last()) + match rows.last().emission {
            Some(emission) => if emission.finish is Some {
                1int
            } else {
                0int
            },
            None => 0int,
        }
    }
}

/// The owner never waits for the queue and never stops while a request is active.
pub proof fn owner_blocks_only_when_idle(owner: OwnerLoop, event: OwnerEvent, free_slots: usize)
    requires
        owner.expects(event),
        free_slots < owner.maximum_request_slots,
        owner.phase != OwnerPhase::Waiting,
    ensures
        owner.reaction(event, free_slots).1 != OwnerAction::WaitForRequest,
        owner.reaction(event, free_slots).1 != OwnerAction::Stop,
        owner.reaction(event, free_slots).0 != OwnerPhase::Waiting,
        owner.reaction(event, free_slots).0 != OwnerPhase::Stopped,
{
}

/// Every received request is handed to admission, whatever phase received it.
pub proof fn owner_admits_every_request(owner: OwnerLoop, free_slots: usize)
    ensures
        owner.reaction(OwnerEvent::Received, free_slots).1 == OwnerAction::AdmitAndDrain,
{
}

/// A step runs exactly when the scheduler chose work, and then counts as one step.
pub proof fn owner_steps_exactly_on_work(owner: OwnerLoop, items: usize, free_slots: usize)
    ensures
        owner.reaction(OwnerEvent::Scheduled { items }, free_slots).1 == OwnerAction::RunStep
            <==> items > 0,
        items > 0 && owner.counters.engine_steps < u64::MAX ==> owner.counted(
            OwnerEvent::Scheduled { items },
            free_slots,
        ).engine_steps == owner.counters.engine_steps + 1,
{
}

/// The share of the key-value pages that prefixes may keep.
pub const RADIX_KV_BUDGET_DIVISOR: usize = 4;

/// Recurrent-state snapshots kept for prefixes.
pub const CONV_CHECKPOINT_CAPACITY: usize = 64;

/// Pages that the prefix cache may hold: a quarter of all pages, and at least one.
pub fn prefix_page_budget(physical_kv_pages: usize) -> (r: usize)
    ensures
        r == crate::num::max_int(physical_kv_pages as int / 4, 1),
{
    max_usize(physical_kv_pages / RADIX_KV_BUDGET_DIVISOR, 1)
}

/// Multiplication that sticks to the largest machine integer.
pub open spec fn saturated_product(a: int, b: int) -> int {
    crate::num::min_int(a * b, usize::MAX as int)
}

fn saturating_product(a: usize, b: usize) -> (r: usize)
    ensures
        r == saturated_product(a as int, b as int),
{
    match a.checked_mul(b) {
        Some(product) => product,
        None => usize::MAX,
    }
}

/// Bytes of all key-value pages: keys and values of every attention layer, two bytes per
/// element.
pub open spec fn kv_arena_size(
    total_pages: int,
    attention_layers: int,
    key_value_heads: int,
    page_size: int,
    head_dim: int,
) -> int {
    let planes = saturated_product(saturated_product(total_pages, attention_layers), 2);
    let heads = saturated_product(planes, key_value_heads);
    saturated_product(saturated_product(saturated_product(heads, page_size), head_dim), 2)
}

pub fn kv_arena_bytes(
    total_pages: usize,
    attention_layers: usize,
    key_value_heads: usize,
    page_size: usize,
    head_dim: usize,
) -> (r: usize)
    ensures
        r == kv_arena_size(
            total_pages as int,
            attention_layers as int,
            key_value_heads as int,
            page_size as int,
            head_dim as int,
        ),
{
    let planes: usize = saturating_product(saturating_product(total_pages, attention_layers), 2);
    let heads: usize = saturating_product(planes, key_value_heads);
    saturating_product(saturating_product(saturating_product(heads, page_size), head_dim), 2)
}

/// Bytes retained by the temporary pools: two per bf16 element, one per fp8 element.
pub fn retained_pool_bytes(bf16: PoolStats, fp8: PoolStats) -> (r: usize)
    ensures
        r == crate::num::min_int(
            saturated_product(bf16.available_elements as int, 2) + fp8.available_elements,
            usize::MAX as int,
        ),
{
    saturating_product(bf16.available_elements, 2).saturating_add(fp8.available_elements)
}

} // verus!
