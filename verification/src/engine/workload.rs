//! Synthetic workloads: the inputs that benchmarks and validations feed to the model.
use vstd::prelude::*;

use crate::engine::batch::RaggedBatch;
#[allow(unused_imports)]
use crate::engine::batch::RaggedView;
#[allow(unused_imports)]
use crate::engine::config::warmup_prompt;

verus! {

#[derive(Clone, Copy, Debug, PartialEq, Eq, Structural)]
pub enum WorkloadError {
    /// A row, slot or position does not fit its 32-bit index.
    IndexOverflow,
}

/// The token and position that a timed decode step feeds to every sequence.
#[derive(Clone, Copy, Debug, PartialEq, Eq, Structural)]
pub struct TimedStep {
    pub token: u32,
    pub position: u32,
}

/// The input of a timed decode step: tokens cycle through `cycle` values from `first_token`
/// on, and positions count up from `base`.
pub fn timed_step(first_token: u32, cycle: u32, base: usize, step: usize) -> (r: Result<
    TimedStep,
    WorkloadError,
>)
    requires
        cycle > 0,
        first_token + cycle <= u32::MAX,
        base + step <= usize::MAX,
    ensures
        r == (if base + step > u32::MAX {
            Err::<TimedStep, WorkloadError>(WorkloadError::IndexOverflow)
        } else {
            Ok::<TimedStep, WorkloadError>(
                TimedStep {
                    token: (first_token + step as int % cycle as int) as u32,
                    position: (base + step) as u32,
                },
            )
        }),
{
    let position: usize = base + step;
    if position > u32::MAX as usize {
        return Err(WorkloadError::IndexOverflow);
    }
    let offset: usize = step % cycle as usize;
    Ok(TimedStep { token: first_token + offset as u32, position: position as u32 })
}

/// The numbers below `count`.
pub open spec fn indices(count: int) -> Seq<u32> {
    Seq::new(count as nat, |i: int| i as u32)
}

/// Lists the slots of a batch, one row each.
pub fn slot_ids(batch: usize) -> (r: Result<Vec<u32>, WorkloadError>)
    ensures
        match r {
            Ok(slots) => batch <= u32::MAX + 1 && slots@ == indices(batch as int),
            Err(e) => batch > u32::MAX + 1 && e == WorkloadError::IndexOverflow,
        },
{
    if batch > 0 && batch - 1 > u32::MAX as usize {
        return Err(WorkloadError::IndexOverflow);
    }
    let mut slots: Vec<u32> = Vec::new();
    let mut slot: usize = 0;
    while slot < batch
        invariant
            slot <= batch <= u32::MAX + 1,
            slots@ == indices(slot as int),
        decreases batch - slot,
    {
        slots.push(slot as u32);
        slot = slot + 1;
        assert(slots@ =~= indices(slot as int));
    }
    Ok(slots)
}

/// How the rows of a decode batch belong to their requests.
#[derive(Debug)]
pub struct DecodeMetadata {
    pub request_slots: Vec<u32>,
    pub segment_offsets: Vec<u32>,
    pub segment_slots: Vec<u32>,
    pub output_rows: Vec<u32>,
}

/// Describes a decode batch of one row per slot.
pub fn decode_metadata(batch: usize) -> (r: Result<DecodeMetadata, WorkloadError>)
    ensures
        match r {
            Ok(metadata) => {
                &&& batch <= u32::MAX
                &&& metadata.request_slots@ == indices(batch as int)
                &&& metadata.segment_offsets@ == indices(batch + 1)
                &&& metadata.segment_slots@ == indices(batch as int)
                &&& metadata.output_rows@ == indices(batch as int)
            },
            Err(e) => batch > u32::MAX && e == WorkloadError::IndexOverflow,
        },
{
    if batch > u32::MAX as usize {
        return Err(WorkloadError::IndexOverflow);
    }
    let mut request_slots: Vec<u32> = Vec::new();
    let mut segment_offsets: Vec<u32> = Vec::new();
    let mut segment_slots: Vec<u32> = Vec::new();
    let mut output_rows: Vec<u32> = Vec::new();
    let mut row: usize = 0;
    segment_offsets.push(0);
    assert(segment_offsets@ =~= indices(1));
    while row < batch
        invariant
            row <= batch <= u32::MAX,
            request_slots@ == indices(row as int),
            segment_offsets@ == indices(row + 1),
            segment_slots@ == indices(row as int),
            output_rows@ == indices(row as int),
        decreases batch - row,
    {
        request_slots.push(row as u32);
        segment_slots.push(row as u32);
        output_rows.push(row as u32);
        row = row + 1;
        segment_offsets.push(row as u32);
        assert(request_slots@ =~= indices(row as int));
        assert(segment_slots@ =~= indices(row as int));
        assert(output_rows@ =~= indices(row as int));
        assert(segment_offsets@ =~= indices(row + 1));
    }
    Ok(DecodeMetadata { request_slots, segment_offsets, segment_slots, output_rows })
}

/// The tokens that a teacher-forced decode step feeds to a batch, a different one to every
/// slot.
pub fn forced_tokens(batch: usize, step: usize) -> (r: Result<Vec<u32>, WorkloadError>)
    requires
        step * 17 + batch <= usize::MAX,
        batch == 0 || step * 17 > u32::MAX || step * 17 + batch - 1 + 5000 <= u32::MAX,
    ensures
        match r {
            Ok(tokens) => {
                &&& batch == 0 || step * 17 <= u32::MAX
                &&& tokens@ == Seq::new(batch as nat, |slot: int| (5000 + step * 17 + slot) as u32)
            },
            Err(e) => batch > 0 && step * 17 > u32::MAX && e == WorkloadError::IndexOverflow,
        },
{
    let mut tokens: Vec<u32> = Vec::new();
    let mut slot: usize = 0;
    while slot < batch
        invariant
            slot <= batch,
            step * 17 + batch <= usize::MAX,
            batch == 0 || step * 17 > u32::MAX || step * 17 + batch - 1 + 5000 <= u32::MAX,
            slot > 0 ==> step * 17 <= u32::MAX,
            tokens@ == Seq::new(slot as nat, |slot: int| (5000 + step * 17 + slot) as u32),
        decreases batch - slot,
    {
        let offset: usize = step * 17 + slot;
        if offset > u32::MAX as usize {
            return Err(WorkloadError::IndexOverflow);
        }
        tokens.push(5000 + offset as u32);
        slot = slot + 1;
        assert(tokens@ =~= Seq::new(slot as nat, |slot: int| (5000 + step * 17 + slot) as u32));
    }
    Ok(tokens)
}

/// The tokens of the first `upto` prompts together.
pub open spec fn prompt_tokens(prompts: Seq<Seq<u32>>, upto: int) -> int
    decreases upto,
{
    if upto <= 0 {
        0
    } else {
        prompt_tokens(prompts, upto - 1) + prompts[upto - 1].len()
    }
}

/// A batch that runs the first `upto` prompts from their first tokens on, each in the slot
/// of its index.
pub open spec fn prompts_batch(prompts: Seq<Seq<u32>>, upto: int) -> RaggedView
    decreases upto,
{
    if upto <= 0 {
        RaggedView::empty()
    } else {
        prompts_batch(prompts, upto - 1).with_segment((upto - 1) as u32, 0, prompts[upto - 1])
    }
}

pub open spec fn prompt_views(prompts: Seq<Vec<u32>>) -> Seq<Seq<u32>> {
    Seq::new(prompts.len(), |i: int| prompts[i]@)
}

proof fn lemma_prompt_tokens(prompts: Seq<Seq<u32>>, a: int, b: int)
    requires
        0 <= a <= b <= prompts.len(),
        forall|i: int| 0 <= i < prompts.len() ==> (#[trigger] prompts[i]).len() > 0,
    ensures
        a <= prompt_tokens(prompts, a) <= prompt_tokens(prompts, b),
    decreases b,
{
    if a < b {
        lemma_prompt_tokens(prompts, a, b - 1);
    } else if a > 0 {
        lemma_prompt_tokens(prompts, a - 1, a - 1);
    }
}

/// Packs prompts into one ragged batch.
pub fn batch_prompts(prompts: &Vec<Vec<u32>>) -> (r: Result<RaggedBatch, WorkloadError>)
    requires
        forall|i: int| 0 <= i < prompts@.len() ==> (#[trigger] prompts@[i])@.len() > 0,
    ensures
        ({
            let views = prompt_views(prompts@);
            let total = prompt_tokens(views, prompts@.len() as int);
            match r {
                Ok(batch) => total <= u32::MAX && batch@ == prompts_batch(
                    views,
                    prompts@.len() as int,
                ),
                Err(e) => total > u32::MAX && e == WorkloadError::IndexOverflow,
            }
        }),
{
    let ghost views = prompt_views(prompts@);
    let mut batch = RaggedBatch::new();
    let mut slot: usize = 0;
    while slot < prompts.len()
        invariant
            slot <= prompts@.len(),
            views == prompt_views(prompts@),
            forall|i: int| 0 <= i < prompts@.len() ==> (#[trigger] prompts@[i])@.len() > 0,
            batch@ == prompts_batch(views, slot as int),
            batch@.token_ids.len() == prompt_tokens(views, slot as int),
            prompt_tokens(views, slot as int) <= u32::MAX,
        decreases prompts@.len() - slot,
    {
        let prompt = &prompts[slot];
        let length: usize = prompt.len();
        proof {
            assert(views[slot as int] == prompt@);
            assert(prompt@.subrange(0, length as int) =~= prompt@);
            assert forall|i: int| 0 <= i < views.len() implies (#[trigger] views[i]).len() > 0 by {
                assert(views[i] == prompts@[i]@);
            }
            lemma_prompt_tokens(views, slot as int, slot as int);
            lemma_prompt_tokens(views, slot + 1, views.len() as int);
        }
        match batch.push_segment(slot as u32, prompt, 0, length) {
            Ok(()) => {},
            Err(_) => {
                return Err(WorkloadError::IndexOverflow);
            },
        }
        slot = slot + 1;
    }
    Ok(batch)
}

/// A prompt of `count` tokens, of which the first begins a text.
pub fn probe_prompt(bos_token_id: u32, count: usize) -> (r: Vec<u32>)
    ensures
        r@ == warmup_prompt(bos_token_id, count as int),
{
    let mut prompt: Vec<u32> = Vec::new();
    let mut position: usize = 0;
    while position < count
        invariant
            position <= count,
            prompt@ == warmup_prompt(bos_token_id, position as int),
        decreases count - position,
    {
        prompt.push(
            if position == 0 {
                bos_token_id
            } else {
                42
            },
        );
        position = position + 1;
        assert(prompt@ =~= warmup_prompt(bos_token_id, position as int));
    }
    prompt
}

/// The same prompt for every slot.
pub open spec fn repeated(prompt: Seq<u32>, count: int) -> Seq<Seq<u32>> {
    Seq::new(count as nat, |i: int| prompt)
}

proof fn lemma_repeated_tokens(prompt: Seq<u32>, count: int, upto: int)
    requires
        0 <= upto <= count,
    ensures
        prompt_tokens(repeated(prompt, count), upto) == upto * prompt.len(),
    decreases upto,
{
    if upto > 0 {
        lemma_repeated_tokens(prompt, count, upto - 1);
        assert((upto - 1) * prompt.len() + prompt.len() == upto * prompt.len()) by (nonlinear_arith);
    } else {
        assert(0 * prompt.len() == 0) by (nonlinear_arith);
    }
}

/// A batch that runs the same prompt in every slot.
pub fn repeated_prompt_batch(bos_token_id: u32, tokens: usize, batch_size: usize) -> (r: Result<
    RaggedBatch,
    WorkloadError,
>)
    requires
        tokens > 0,
    ensures
        match r {
            Ok(batch) => batch_size * tokens <= u32::MAX && batch@ == prompts_batch(
                repeated(warmup_prompt(bos_token_id, tokens as int), batch_size as int),
                batch_size as int,
            ),
            Err(e) => batch_size * tokens > u32::MAX && e == WorkloadError::IndexOverflow,
        },
{
    let mut prompts: Vec<Vec<u32>> = Vec::new();
    let ghost prompt = warmup_prompt(bos_token_id, tokens as int);
    let mut slot: usize = 0;
    while slot < batch_size
        invariant
            slot <= batch_size,
            prompt == warmup_prompt(bos_token_id, tokens as int),
            prompts@.len() == slot,
            forall|i: int| 0 <= i < slot ==> (#[trigger] prompts@[i])@ == prompt,
        decreases batch_size - slot,
    {
        prompts.push(probe_prompt(bos_token_id, tokens));
        slot = slot + 1;
    }
    proof {
        assert(prompt_views(prompts@) =~= repeated(prompt, batch_size as int));
        lemma_repeated_tokens(prompt, batch_size as int, batch_size as int);
    }
    batch_prompts(&prompts)
}

/// The prompt of a slot in a batch of different prompts.
pub open spec fn mixed_prompt(bos_token_id: u32, slot: int, count: int) -> Seq<u32> {
    Seq::new(
        count as nat,
        |i: int|
            if i == 0 {
                bos_token_id
            } else {
                (100 + ((slot * 1000 + i) * 17 + 43) % 5000) as u32
            },
    )
}

/// A different prompt for every slot.
pub open spec fn mixed_prompts(bos_token_id: u32, slots: int, count: int) -> Seq<Seq<u32>> {
    Seq::new(slots as nat, |slot: int| mixed_prompt(bos_token_id, slot, count))
}

/// A batch that runs a different prompt in every slot.
pub fn build_ragged_input(bos_token_id: u32, batch_size: usize, tokens_per_seq: usize) -> (r: Result<
    RaggedBatch,
    WorkloadError,
>)
    requires
        tokens_per_seq > 0,
        (batch_size * 1000 + tokens_per_seq) * 17 + 43 <= usize::MAX,
    ensures
        ({
            let prompts = mixed_prompts(bos_token_id, batch_size as int, tokens_per_seq as int);
            match r {
                Ok(batch) => prompt_tokens(prompts, batch_size as int) <= u32::MAX && batch@
                    == prompts_batch(prompts, batch_size as int),
                Err(e) => prompt_tokens(prompts, batch_size as int) > u32::MAX && e
                    == WorkloadError::IndexOverflow,
            }
        }),
{
    let mut prompts: Vec<Vec<u32>> = Vec::new();
    let mut slot: usize = 0;
    while slot < batch_size
        invariant
            slot <= batch_size,
            tokens_per_seq > 0,
            (batch_size * 1000 + tokens_per_seq) * 17 + 43 <= usize::MAX,
            prompts@.len() == slot,
            forall|i: int|
                0 <= i < slot ==> (#[trigger] prompts@[i])@ == mixed_prompt(
                    bos_token_id,
                    i,
                    tokens_per_seq as int,
                ),
        decreases batch_size - slot,
    {
        let mut prompt: Vec<u32> = Vec::new();
        let mut position: usize = 0;
        while position < tokens_per_seq
            invariant
                position <= tokens_per_seq,
                slot < batch_size,
                (batch_size * 1000 + tokens_per_seq) * 17 + 43 <= usize::MAX,
                prompt@ == mixed_prompt(bos_token_id, slot as int, position as int),
            decreases tokens_per_seq - position,
        {
            prompt.push(
                if position == 0 {
                    bos_token_id
                } else {
                    100 + (((slot * 1000 + position) * 17 + 43) % 5000) as u32
                },
            );
            position = position + 1;
            assert(prompt@ =~= mixed_prompt(bos_token_id, slot as int, position as int));
        }
        prompts.push(prompt);
        slot = slot + 1;
    }
    proof {
        assert(prompt_views(prompts@) =~= mixed_prompts(
            bos_token_id,
            batch_size as int,
            tokens_per_seq as int,
        ));
    }
    batch_prompts(&prompts)
}

/// Packing prompts loses and mixes nothing: every row of the batch belongs to a slot and
/// holds that slot's prompt in order.
pub proof fn packed_prompts_keep_their_tokens(
    prompts: Seq<Seq<u32>>,
    upto: int,
    slot: int,
    position: int,
)
    requires
        0 <= slot < upto <= prompts.len(),
        prompt_tokens(prompts, upto) <= u32::MAX,
        upto <= u32::MAX,
        0 <= position < prompts[slot].len(),
    ensures
        ({
            let batch = prompts_batch(prompts, upto);
            let row = prompt_tokens(prompts, slot) + position;
            &&& batch.token_ids.len() == prompt_tokens(prompts, upto)
            &&& 0 <= row < batch.token_ids.len()
            &&& batch.token_ids[row] == prompts[slot][position]
            &&& batch.positions[row] == position
            &&& batch.request_slots[row] == slot
        }),
    decreases upto,
{
    lemma_batch_length(prompts, upto - 1);
    lemma_batch_length(prompts, upto);
    lemma_tokens_nonnegative(prompts, slot);
    if slot < upto - 1 {
        packed_prompts_keep_their_tokens(prompts, upto - 1, slot, position);
    } else {
        let batch = prompts_batch(prompts, upto);
        let before = prompts_batch(prompts, upto - 1);
        let row = prompt_tokens(prompts, slot) + position;
        assert(batch.token_ids == before.token_ids + prompts[slot]);
        assert(batch.positions[row] == position as u32);
    }
}

proof fn lemma_tokens_nonnegative(prompts: Seq<Seq<u32>>, upto: int)
    requires
        0 <= upto <= prompts.len(),
    ensures
        prompt_tokens(prompts, upto) >= 0,
    decreases upto,
{
    if upto > 0 {
        lemma_tokens_nonnegative(prompts, upto - 1);
    }
}

proof fn lemma_batch_length(prompts: Seq<Seq<u32>>, upto: int)
    requires
        0 <= upto <= prompts.len(),
    ensures
        prompts_batch(prompts, upto).token_ids.len() == prompt_tokens(prompts, upto),
        prompts_batch(prompts, upto).positions.len() == prompt_tokens(prompts, upto),
        prompts_batch(prompts, upto).request_slots.len() == prompt_tokens(prompts, upto),
    decreases upto,
{
    if upto > 0 {
        lemma_batch_length(prompts, upto - 1);
    }
}

} // verus!
