//! Ragged batches: the token rows that one engine step feeds to the model.
use vstd::prelude::*;

use crate::engine::owner::StepError;
use crate::num::min_usize;
use crate::scheduler::{RequestSlots, ScheduledWork};
#[allow(unused_imports)]
use crate::scheduler::RequestView;

verus! {

/// Rows of several requests, concatenated segment by segment.
#[derive(Debug)]
pub struct RaggedBatch {
    pub token_ids: Vec<u32>,
    pub positions: Vec<u32>,
    pub request_slots: Vec<u32>,
    pub segment_offsets: Vec<u32>,
    pub segment_slots: Vec<u32>,
    pub output_rows: Vec<u32>,
}

/// The contents of a ragged batch.
#[verifier::ext_equal]
pub struct RaggedView {
    pub token_ids: Seq<u32>,
    pub positions: Seq<u32>,
    pub request_slots: Seq<u32>,
    pub segment_offsets: Seq<u32>,
    pub segment_slots: Seq<u32>,
    pub output_rows: Seq<u32>,
}

impl View for RaggedBatch {
    type V = RaggedView;

    open spec fn view(&self) -> RaggedView {
        RaggedView {
            token_ids: self.token_ids@,
            positions: self.positions@,
            request_slots: self.request_slots@,
            segment_offsets: self.segment_offsets@,
            segment_slots: self.segment_slots@,
            output_rows: self.output_rows@,
        }
    }
}

impl RaggedView {
    /// A batch without rows.
    pub open spec fn empty() -> RaggedView {
        RaggedView {
            token_ids: Seq::empty(),
            positions: Seq::empty(),
            request_slots: Seq::empty(),
            segment_offsets: seq![0u32],
            segment_slots: Seq::empty(),
            output_rows: Seq::empty(),
        }
    }

    /// The batch with one more segment: `tokens` at positions `start..` of `slot`.
    pub open spec fn with_segment(self, slot: u32, start: int, tokens: Seq<u32>) -> RaggedView {
        let total = self.token_ids.len() + tokens.len();
        RaggedView {
            token_ids: self.token_ids + tokens,
            positions: self.positions + Seq::new(tokens.len(), |i: int| (start + i) as u32),
            request_slots: self.request_slots + Seq::new(tokens.len(), |i: int| slot),
            segment_offsets: self.segment_offsets.push(total as u32),
            segment_slots: self.segment_slots.push(slot),
            output_rows: self.output_rows.push((total - 1) as u32),
        }
    }

    /// Every index of the batch is consistent with every other.
    pub open spec fn well_formed(self) -> bool {
        &&& self.positions.len() == self.token_ids.len()
        &&& self.request_slots.len() == self.token_ids.len()
        &&& self.segment_offsets.len() == self.segment_slots.len() + 1
        &&& self.output_rows.len() == self.segment_slots.len()
        &&& self.segment_offsets[0] == 0
        &&& self.segment_offsets.last() == self.token_ids.len()
        &&& forall|i: int, j: int|
            0 <= i <= j < self.segment_offsets.len() ==> self.segment_offsets[i]
                <= self.segment_offsets[j]
        &&& forall|s: int|
            0 <= s < self.output_rows.len() ==> #[trigger] self.output_rows[s] + 1
                == self.segment_offsets[s + 1]
        &&& forall|s: int, row: int|
            0 <= s < self.segment_slots.len() && self.segment_offsets[s] <= row
                < self.segment_offsets[s + 1] ==> #[trigger] self.request_slots[row]
                == #[trigger] self.segment_slots[s]
    }
}

/// The token range `(start, length)` that a work item runs.
pub open spec fn scheduled_range(item: ScheduledWork, slots: Seq<RequestView>) -> Result<
    (int, int),
    StepError,
> {
    if item.slot_id().0 >= slots.len() {
        Err(StepError::UnknownSlot)
    } else {
        let request = slots[item.slot_id().0 as int];
        match item {
            ScheduledWork::Decode { .. } => if request.tokens.len() == 0 {
                Err(StepError::RangeOverflow)
            } else {
                Ok((request.tokens.len() - 1, 1))
            },
            ScheduledWork::Prefill { tokens, .. } => {
                let remaining = crate::num::max_int(request.prompt_len - request.prefilled, 0);
                let length = crate::num::min_int(tokens as int, remaining);
                if request.prefilled + length > usize::MAX {
                    Err(StepError::RangeOverflow)
                } else if request.prefilled + length > request.tokens.len() {
                    Err(StepError::RangeExceedsRequest)
                } else {
                    Ok((request.prefilled as int, length))
                }
            },
        }
    }
}

/// The batch extended by one work item.
pub open spec fn extended(batch: RaggedView, item: ScheduledWork, slots: Seq<RequestView>) -> Result<
    RaggedView,
    StepError,
> {
    match scheduled_range(item, slots) {
        Err(e) => Err(e),
        Ok((start, length)) => {
            let total = batch.token_ids.len() + length;
            if (length > 0 && start + length - 1 > u32::MAX) || total > u32::MAX || total == 0 {
                Err(StepError::IndexOverflow)
            } else {
                let slot = item.slot_id().0;
                Ok(
                    batch.with_segment(
                        slot,
                        start,
                        slots[slot as int].tokens.subrange(start, start + length),
                    ),
                )
            }
        },
    }
}

/// The batch of a whole step, item by item.
pub open spec fn assembled(work: Seq<ScheduledWork>, slots: Seq<RequestView>) -> Result<
    RaggedView,
    StepError,
>
    decreases work.len(),
{
    if work.len() == 0 {
        Ok(RaggedView::empty())
    } else {
        match assembled(work.drop_last(), slots) {
            Err(e) => Err(e),
            Ok(batch) => extended(batch, work.last(), slots),
        }
    }
}

impl RaggedBatch {
    /// A batch without rows.
    pub fn new() -> (r: Self)
        ensures
            r@ == RaggedView::empty(),
    {
        let mut segment_offsets: Vec<u32> = Vec::new();
        segment_offsets.push(0);
        let r = RaggedBatch {
            token_ids: Vec::new(),
            positions: Vec::new(),
            request_slots: Vec::new(),
            segment_offsets,
            segment_slots: Vec::new(),
            output_rows: Vec::new(),
        };
        assert(r@ =~= RaggedView::empty());
        r
    }

    /// Appends `length` tokens of `slot`, from position `start` of its `tokens`.
    pub fn push_segment(&mut self, slot: u32, tokens: &Vec<u32>, start: usize, length: usize) -> (r: Result<
        (),
        StepError,
    >)
        requires
            start + length <= tokens@.len(),
        ensures
            ({
                let total = old(self)@.token_ids.len() + length;
                let overflow = (length > 0 && start + length - 1 > u32::MAX) || total > u32::MAX
                    || total == 0;
                match r {
                    Ok(()) => !overflow && final(self)@ == old(self)@.with_segment(
                        slot,
                        start as int,
                        tokens@.subrange(start as int, start + length),
                    ),
                    Err(e) => overflow && e == StepError::IndexOverflow && *final(self) == *old(
                        self,
                    ),
                }
            }),
    {
        let available: usize = tokens.len();
        assert(start + length <= available);
        let end: usize = start + length;
        if length > 0 && end - 1 > u32::MAX as usize {
            return Err(StepError::IndexOverflow);
        }
        let rows: usize = self.token_ids.len();
        if rows > u32::MAX as usize || length > u32::MAX as usize - rows || rows + length == 0 {
            return Err(StepError::IndexOverflow);
        }
        let ghost before = self@;
        let ghost taken = tokens@.subrange(start as int, start + length);
        let mut index: usize = 0;
        while index < length
            invariant
                index <= length,
                start + length <= tokens@.len(),
                length > 0 ==> start + length - 1 <= u32::MAX,
                before == old(self)@,
                taken == tokens@.subrange(start as int, start + length),
                self.token_ids@ == before.token_ids + taken.subrange(0, index as int),
                self.positions@ == before.positions + Seq::new(
                    index as nat,
                    |i: int| (start + i) as u32,
                ),
                self.request_slots@ == before.request_slots + Seq::new(
                    index as nat,
                    |i: int| slot,
                ),
                self.segment_offsets@ == before.segment_offsets,
                self.segment_slots@ == before.segment_slots,
                self.output_rows@ == before.output_rows,
            decreases length - index,
        {
            self.token_ids.push(tokens[start + index]);
            self.positions.push((start + index) as u32);
            self.request_slots.push(slot);
            proof {
                assert(taken.subrange(0, index + 1) =~= taken.subrange(0, index as int).push(
                    tokens@[start + index],
                ));
            }
            index = index + 1;
        }
        self.segment_offsets.push((rows + length) as u32);
        self.segment_slots.push(slot);
        self.output_rows.push((rows + length - 1) as u32);
        proof {
            assert(taken.subrange(0, length as int) =~= taken);
            assert(self@ =~= before.with_segment(slot, start as int, taken));
        }
        Ok(())
    }
}

/// Some of the work prefills a prompt.
pub open spec fn prefills(work: Seq<ScheduledWork>) -> bool {
    exists|i: int| 0 <= i < work.len() && (#[trigger] work[i]) is Prefill
}

/// Whether a step has rows of a prompt that is still being prefilled, which keeps it in bf16.
pub fn has_prefill_rows(work: &Vec<ScheduledWork>) -> (r: bool)
    ensures
        r == prefills(work@),
{
    let mut index: usize = 0;
    while index < work.len()
        invariant
            index <= work@.len(),
            forall|i: int| 0 <= i < index ==> !((#[trigger] work@[i]) is Prefill),
        decreases work@.len() - index,
    {
        if let ScheduledWork::Prefill { .. } = work[index] {
            assert(work@[index as int] is Prefill);
            return true;
        }
        index = index + 1;
    }
    false
}

/// The batch that runs `work` on the requests in `slots`.
pub fn assemble_step_batch(work: &Vec<ScheduledWork>, slots: &RequestSlots) -> (r: Result<
    RaggedBatch,
    StepError,
>)
    ensures
        match r {
            Ok(batch) => assembled(work@, slots@) == Ok::<RaggedView, StepError>(batch@),
            Err(e) => assembled(work@, slots@) == Err::<RaggedView, StepError>(e),
        },
{
    let mut batch = RaggedBatch::new();
    let mut index: usize = 0;
    while index < work.len()
        invariant
            index <= work@.len(),
            assembled(work@.subrange(0, index as int), slots@) == Ok::<RaggedView, StepError>(
                batch@,
            ),
        decreases work@.len() - index,
    {
        let item = work[index];
        proof {
            let upto = work@.subrange(0, index + 1);
            assert(upto.drop_last() =~= work@.subrange(0, index as int));
            assert(upto.last() == item);
            lemma_error_persists(work@, slots@, index + 1);
        }
        let request = match slots.get(item.slot()) {
            Some(request) => request,
            None => {
                return Err(StepError::UnknownSlot);
            },
        };
        let (start, length): (usize, usize) = match item {
            ScheduledWork::Decode { .. } => {
                if request.tokens.len() == 0 {
                    return Err(StepError::RangeOverflow);
                }
                (request.tokens.len() - 1, 1)
            },
            ScheduledWork::Prefill { tokens, .. } => {
                let remaining: usize = if request.prompt_len > request.prefilled {
                    request.prompt_len - request.prefilled
                } else {
                    0
                };
                let length: usize = min_usize(tokens, remaining);
                match request.prefilled.checked_add(length) {
                    Some(end) => {
                        if end > request.tokens.len() {
                            return Err(StepError::RangeExceedsRequest);
                        }
                        (request.prefilled, length)
                    },
                    None => {
                        return Err(StepError::RangeOverflow);
                    },
                }
            },
        };
        match batch.push_segment(item.slot().0, &request.tokens, start, length) {
            Ok(()) => {},
            Err(e) => {
                return Err(e);
            },
        }
        index = index + 1;
    }
    assert(work@.subrange(0, index as int) =~= work@);
    Ok(batch)
}

/// Once an item fails, the whole step fails with the same error.
proof fn lemma_error_persists(work: Seq<ScheduledWork>, slots: Seq<RequestView>, upto: int)
    requires
        0 <= upto <= work.len(),
    ensures
        assembled(work.subrange(0, upto), slots) is Err ==> assembled(work, slots) == assembled(
            work.subrange(0, upto),
            slots,
        ),
    decreases work.len() - upto,
{
    if upto == work.len() {
        assert(work.subrange(0, upto) =~= work);
    } else {
        lemma_error_persists(work, slots, upto + 1);
        assert(work.subrange(0, upto + 1).drop_last() =~= work.subrange(0, upto));
    }
}

proof fn lemma_segment_keeps_well_formed(batch: RaggedView, slot: u32, start: int, tokens: Seq<u32>)
    requires
        batch.well_formed(),
        0 < batch.token_ids.len() + tokens.len() <= u32::MAX,
    ensures
        batch.with_segment(slot, start, tokens).well_formed(),
{
    let after = batch.with_segment(slot, start, tokens);
    let n = batch.segment_slots.len() as int;
    assert(after.segment_offsets[n] == batch.segment_offsets.last());
    assert forall|s: int| 0 <= s < after.output_rows.len() implies #[trigger] after.output_rows[s]
        + 1 == after.segment_offsets[s + 1] by {
        if s < n {
            assert(after.output_rows[s] == batch.output_rows[s]);
            assert(after.segment_offsets[s + 1] == batch.segment_offsets[s + 1]);
        }
    }
    assert forall|s: int, row: int|
        0 <= s < after.segment_slots.len() && after.segment_offsets[s] <= row
            < after.segment_offsets[s + 1] implies #[trigger] after.request_slots[row]
        == #[trigger] after.segment_slots[s] by {
        if s < n {
            assert(after.segment_offsets[s] == batch.segment_offsets[s]);
            assert(after.segment_offsets[s + 1] == batch.segment_offsets[s + 1]);
            assert(batch.segment_offsets[s + 1] <= batch.segment_offsets[n]);
            assert(after.request_slots[row] == batch.request_slots[row]);
            assert(after.segment_slots[s] == batch.segment_slots[s]);
        }
    }
}

/// Every assembled batch is well formed and has one segment per work item.
pub proof fn assembled_batch_is_well_formed(work: Seq<ScheduledWork>, slots: Seq<RequestView>)
    ensures
        assembled(work, slots) matches Ok(batch) ==> batch.well_formed() && batch.segment_slots.len()
            == work.len(),
    decreases work.len(),
{
    if work.len() > 0 {
        assembled_batch_is_well_formed(work.drop_last(), slots);
        if assembled(work, slots) is Ok {
            let batch = assembled(work.drop_last(), slots)->Ok_0;
            let (start, length) = scheduled_range(work.last(), slots)->Ok_0;
            let slot = work.last().slot_id().0;
            lemma_segment_keeps_well_formed(
                batch,
                slot,
                start,
                slots[slot as int].tokens.subrange(start, start + length),
            );
        }
    }
}

/// Every row of an assembled batch carries the token that its request has at the row's
/// position.
pub proof fn assembled_rows_carry_request_tokens(
    work: Seq<ScheduledWork>,
    slots: Seq<RequestView>,
    row: int,
)
    requires
        assembled(work, slots) is Ok,
        0 <= row < assembled(work, slots)->Ok_0.token_ids.len(),
    ensures
        ({
            let batch = assembled(work, slots)->Ok_0;
            &&& batch.request_slots[row] < slots.len()
            &&& batch.positions[row] < slots[batch.request_slots[row] as int].tokens.len()
            &&& batch.token_ids[row]
                == slots[batch.request_slots[row] as int].tokens[batch.positions[row] as int]
        }),
    decreases work.len(),
{
    assembled_batch_is_well_formed(work, slots);
    if work.len() > 0 {
        let head = assembled(work.drop_last(), slots)->Ok_0;
        assembled_batch_is_well_formed(work.drop_last(), slots);
        if row < head.token_ids.len() {
            assembled_rows_carry_request_tokens(work.drop_last(), slots, row);
        } else {
            let (start, length) = scheduled_range(work.last(), slots)->Ok_0;
            let index = row - head.token_ids.len();
            assert(0 <= start + index <= u32::MAX);
        }
    }
}

} // verus!
