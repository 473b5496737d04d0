//! The decode executor: fixed buffers, captured graphs and int8 tails for batches in which
//! every request decodes one token.
use vstd::prelude::*;

use crate::engine::batch::RaggedBatch;
#[allow(unused_imports)]
use crate::engine::batch::RaggedView;
#[allow(unused_imports)]
use crate::cache::KvPageSize;
use crate::model::batch_cache::{BatchCacheError, BatchModelCache, PreparedTokens};
#[allow(unused_imports)]
use crate::model::batch_cache::{row_defect, segment_defect, DecodeSegments};
#[allow(unused_imports)]
use crate::model::forward::{
    batch_pass_of, computation, executor_computes_the_batch_pass, executor_pass_of,
    is_first_mismatch, layers_fit, pass_steps, shape_of, Op,
};
use crate::model::forward::{plan_pass, LayerMismatch, Step};
use crate::model::weights::{Lfm2Model, Lfm2Weights};

verus! {

/// Shortest context that is run from a captured graph.
pub const CUDA_GRAPH_MIN_CONTEXT_TOKENS: usize = 128;

/// Contexts from this length on are not run from a captured graph.
pub const CUDA_GRAPH_MAX_CONTEXT_TOKENS_EXCLUSIVE: usize = 4096;

/// The topologies that graphs are captured for.
#[derive(Clone, Copy, Debug, PartialEq, Eq, Structural)]
pub enum DecodeGraphBucket {
    Unsplit,
    Split8,
}

/// What decides whether a step can run from a graph.
#[derive(Clone, Copy, Debug, PartialEq, Eq, Structural)]
pub struct GraphQuery {
    pub tokens: usize,
    pub context_tokens: usize,
    pub page_size: usize,
    /// Some row belongs to a prompt that is still being prefilled. Such a step runs in bf16,
    /// and graphs hold the precision that they were captured in.
    pub prefill_rows: bool,
    /// The fused kernel is the faster one for this step.
    pub one_kernel: bool,
    /// How many ways the context would be split.
    pub splits: usize,
}

/// How a decode step is run.
#[derive(Clone, Copy, Debug, PartialEq, Eq, Structural)]
pub enum DecodeDispatch {
    Direct,
    /// Launch the graph that was captured for the bucket.
    Replay { bucket: DecodeGraphBucket },
    /// Capture a graph, launch it and keep it.
    Capture { bucket: DecodeGraphBucket },
}

#[derive(Clone, Copy, Debug, PartialEq, Eq, Structural)]
pub enum ExecutorError {
    NoTokenCapacity,
    /// No token, or more than the buffers hold.
    TokenCount,
    NotRankTwo,
    EmptyLinear,
    /// Input and weight differ in their inner width.
    InnerWidth,
}

/// Buffer widths of an executor, in elements for each token.
#[derive(Clone, Copy, Debug, PartialEq, Eq, Structural)]
pub struct ExecutorWidths {
    pub hidden: usize,
    pub key_value: usize,
    /// The widest projection output: gate and up together, or a convolution's input.
    pub wide: usize,
    pub activated: usize,
    pub logits: usize,
    pub fp8_input: usize,
}

/// Fixed buffers for decode steps, and the graphs captured on them.
#[derive(Clone, Copy, Debug, PartialEq, Eq, Structural)]
pub struct DecodeExecutor {
    pub maximum_tokens: usize,
    pub widths: ExecutorWidths,
    pub splitk_attention_enabled: bool,
    pub graphs_enabled: bool,
    pub unsplit_captured: bool,
    pub split8_captured: bool,
}

/// Row `i` of the batch is segment `i`, for every row.
pub open spec fn is_pure_decode(batch: RaggedView) -> bool {
    let tokens = batch.token_ids.len();
    &&& batch.positions.len() == tokens
    &&& batch.request_slots.len() == tokens
    &&& batch.segment_slots.len() == tokens
    &&& batch.segment_offsets.len() == tokens + 1
    &&& batch.output_rows.len() == tokens
    &&& forall|i: int|
        0 <= i < batch.segment_offsets.len() ==> #[trigger] batch.segment_offsets[i] == i
    &&& forall|i: int| 0 <= i < batch.output_rows.len() ==> #[trigger] batch.output_rows[i] == i
}

fn counts_up(values: &Vec<u32>) -> (r: bool)
    ensures
        r == (forall|i: int| 0 <= i < values@.len() ==> #[trigger] values@[i] == i),
{
    let mut index: usize = 0;
    while index < values.len()
        invariant
            index <= values@.len(),
            forall|i: int| 0 <= i < index ==> #[trigger] values@[i] == i,
        decreases values@.len() - index,
    {
        if values[index] as usize != index {
            assert(values@[index as int] != index);
            return false;
        }
        index = index + 1;
    }
    true
}

impl DecodeExecutor {
    /// An executor without captured graphs.
    pub fn new(
        maximum_tokens: usize,
        hidden_size: usize,
        intermediate_size: usize,
        key_value_heads: usize,
        head_dim: usize,
        vocab_size: usize,
        splitk_attention_enabled: bool,
        graphs_enabled: bool,
    ) -> (r: Result<Self, ExecutorError>)
        requires
            key_value_heads * head_dim <= usize::MAX,
            intermediate_size * 2 <= usize::MAX,
            hidden_size * 3 <= usize::MAX,
        ensures
            match r {
                Ok(executor) => {
                    &&& maximum_tokens > 0
                    &&& executor == (DecodeExecutor {
                        maximum_tokens,
                        widths: ExecutorWidths {
                            hidden: hidden_size,
                            key_value: (key_value_heads * head_dim) as usize,
                            wide: crate::num::max_int(
                                intermediate_size * 2,
                                hidden_size * 3,
                            ) as usize,
                            activated: intermediate_size,
                            logits: vocab_size,
                            fp8_input: crate::num::max_int(
                                intermediate_size as int,
                                hidden_size as int,
                            ) as usize,
                        },
                        splitk_attention_enabled,
                        graphs_enabled,
                        unsplit_captured: false,
                        split8_captured: false,
                    })
                },
                Err(e) => maximum_tokens == 0 && e == ExecutorError::NoTokenCapacity,
            },
    {
        if maximum_tokens == 0 {
            return Err(ExecutorError::NoTokenCapacity);
        }
        let key_value: usize = key_value_heads * head_dim;
        let gate_up: usize = intermediate_size * 2;
        let conv: usize = hidden_size * 3;
        Ok(
            DecodeExecutor {
                maximum_tokens,
                widths: ExecutorWidths {
                    hidden: hidden_size,
                    key_value,
                    wide: crate::num::max_usize(gate_up, conv),
                    activated: intermediate_size,
                    logits: vocab_size,
                    fp8_input: crate::num::max_usize(intermediate_size, hidden_size),
                },
                splitk_attention_enabled,
                graphs_enabled,
                unsplit_captured: false,
                split8_captured: false,
            },
        )
    }

    /// Whether the executor can run a batch: it fits the buffers, and every segment is one
    /// token in row order.
    pub fn eligible(&self, batch: &RaggedBatch) -> (r: bool)
        ensures
            r == self.takes(batch@),
    {
        let tokens: usize = batch.token_ids.len();
        if tokens == 0 || tokens > self.maximum_tokens {
            return false;
        }
        if batch.positions.len() != tokens || batch.request_slots.len() != tokens
            || batch.segment_slots.len() != tokens || batch.segment_offsets.len() == 0
            || batch.segment_offsets.len() - 1 != tokens || batch.output_rows.len() != tokens {
            return false;
        }
        counts_up(&batch.segment_offsets) && counts_up(&batch.output_rows)
    }

    /// The bucket that a step belongs to.
    pub open spec fn bucket_of(self, query: GraphQuery) -> Option<DecodeGraphBucket> {
        if !self.graphs_enabled || !self.splitk_attention_enabled || query.tokens != 1
            || query.page_size != 16 || query.context_tokens < CUDA_GRAPH_MIN_CONTEXT_TOKENS
            || query.context_tokens >= CUDA_GRAPH_MAX_CONTEXT_TOKENS_EXCLUSIVE || query.one_kernel
            || query.prefill_rows {
            None
        } else if query.splits == 1 {
            Some(DecodeGraphBucket::Unsplit)
        } else if query.splits == 8 {
            Some(DecodeGraphBucket::Split8)
        } else {
            None
        }
    }

    pub fn cuda_graph_bucket(&self, query: GraphQuery) -> (r: Option<DecodeGraphBucket>)
        ensures
            r == self.bucket_of(query),
    {
        if !self.graphs_enabled || !self.splitk_attention_enabled {
            return None;
        }
        if query.tokens != 1 || query.page_size != 16 || query.context_tokens
            < CUDA_GRAPH_MIN_CONTEXT_TOKENS || query.context_tokens
            >= CUDA_GRAPH_MAX_CONTEXT_TOKENS_EXCLUSIVE || query.one_kernel || query.prefill_rows {
            return None;
        }
        match query.splits {
            1 => Some(DecodeGraphBucket::Unsplit),
            8 => Some(DecodeGraphBucket::Split8),
            _ => None,
        }
    }

    pub open spec fn has_graph(self, bucket: DecodeGraphBucket) -> bool {
        match bucket {
            DecodeGraphBucket::Unsplit => self.unsplit_captured,
            DecodeGraphBucket::Split8 => self.split8_captured,
        }
    }

    pub open spec fn dispatch_of(self, query: GraphQuery) -> DecodeDispatch {
        match self.bucket_of(query) {
            None => DecodeDispatch::Direct,
            Some(bucket) => if self.has_graph(bucket) {
                DecodeDispatch::Replay { bucket }
            } else {
                DecodeDispatch::Capture { bucket }
            },
        }
    }

    /// Decides how a step is run.
    pub fn dispatch(&self, query: GraphQuery) -> (r: DecodeDispatch)
        ensures
            r == self.dispatch_of(query),
    {
        match self.cuda_graph_bucket(query) {
            None => DecodeDispatch::Direct,
            Some(bucket) => {
                let captured: bool = match bucket {
                    DecodeGraphBucket::Unsplit => self.unsplit_captured,
                    DecodeGraphBucket::Split8 => self.split8_captured,
                };
                if captured {
                    DecodeDispatch::Replay { bucket }
                } else {
                    DecodeDispatch::Capture { bucket }
                }
            },
        }
    }

    /// Records that a graph was captured for the bucket.
    pub fn keep_graph(&mut self, bucket: DecodeGraphBucket)
        ensures
            final(self).has_graph(bucket),
            *final(self) == (match bucket {
                DecodeGraphBucket::Unsplit => DecodeExecutor {
                    unsplit_captured: true,
                    ..*old(self)
                },
                DecodeGraphBucket::Split8 => DecodeExecutor { split8_captured: true, ..*old(self) },
            }),
    {
        match bucket {
            DecodeGraphBucket::Unsplit => {
                self.unsplit_captured = true;
            },
            DecodeGraphBucket::Split8 => {
                self.split8_captured = true;
            },
        }
    }

    /// Checks that a step fits the buffers.
    pub fn check_tokens(&self, tokens: usize) -> (r: Result<(), ExecutorError>)
        ensures
            r == (if 0 < tokens <= self.maximum_tokens {
                Ok::<(), ExecutorError>(())
            } else {
                Err::<(), ExecutorError>(ExecutorError::TokenCount)
            }),
    {
        if tokens > 0 && tokens <= self.maximum_tokens {
            Ok(())
        } else {
            Err(ExecutorError::TokenCount)
        }
    }

    /// How many ways the context is split: not at all if splitting is off.
    pub fn attention_splits(&self, suggested: usize) -> (r: usize)
        ensures
            r == self.splits_of(suggested),
    {
        if self.splitk_attention_enabled {
            suggested
        } else {
            1
        }
    }
}

/// The context of a batch: one more than its largest position.
pub open spec fn context_of(positions: Seq<u32>, upto: int) -> int
    decreases upto,
{
    if upto <= 0 {
        0
    } else {
        crate::num::max_int(context_of(positions, upto - 1), positions[upto - 1] + 1)
    }
}

/// The longest context of a batch, capped to a machine integer.
pub fn longest_context(positions: &Vec<u32>) -> (r: usize)
    ensures
        r == crate::num::min_int(
            context_of(positions@, positions@.len() as int),
            usize::MAX as int,
        ),
{
    let mut longest: usize = 0;
    let mut index: usize = 0;
    while index < positions.len()
        invariant
            index <= positions@.len(),
            longest == crate::num::min_int(
                context_of(positions@, index as int),
                usize::MAX as int,
            ),
            context_of(positions@, index as int) >= 0,
        decreases positions@.len() - index,
    {
        let reached: usize = (positions[index] as usize).saturating_add(1);
        if reached > longest {
            longest = reached;
        }
        index = index + 1;
    }
    longest
}

/// What the device says about the kernels for a batch.
#[derive(Clone, Copy, Debug, PartialEq, Eq, Structural)]
pub struct KernelChoice {
    /// The fused kernel is the faster one.
    pub one_kernel: bool,
    /// How many ways the context would be split.
    pub splits: usize,
}

/// A step that the executor runs.
#[derive(Debug)]
pub struct ExecutorRun {
    pub prepared: PreparedTokens,
    pub dispatch: DecodeDispatch,
    /// The steps to run or capture; none where a graph is replayed.
    pub steps: Vec<Step>,
}

#[derive(Clone, Copy, Debug, PartialEq, Eq, Structural)]
pub enum ExecutorRunError {
    /// The batch cannot be entered in the cache.
    Cache(BatchCacheError),
    /// The cache does not fit the model.
    Layers(LayerMismatch),
}

impl DecodeExecutor {
    /// The batch is one that the executor takes.
    pub open spec fn takes(self, batch: RaggedView) -> bool {
        0 < batch.token_ids.len() <= self.maximum_tokens && is_pure_decode(batch)
    }

    /// What decides whether a batch runs from a graph.
    pub open spec fn query_of(
        batch: RaggedView,
        page_size: KvPageSize,
        prefill_rows: bool,
        choice: KernelChoice,
    ) -> GraphQuery {
        GraphQuery {
            tokens: batch.token_ids.len() as usize,
            context_tokens: crate::num::min_int(
                context_of(batch.positions, batch.positions.len() as int),
                usize::MAX as int,
            ) as usize,
            page_size: page_size.tokens() as usize,
            prefill_rows,
            one_kernel: choice.one_kernel,
            splits: choice.splits,
        }
    }

    /// How many ways the executor splits a context.
    pub open spec fn splits_of(self, suggested: usize) -> usize {
        if self.splitk_attention_enabled {
            suggested
        } else {
            1
        }
    }
}

impl Lfm2Model {
    /// Enters a decode batch in the cache and plans its step on the executor. A batch that
    /// the executor does not take is left alone.
    pub fn try_forward_ragged_decode(
        &self,
        cache: &mut BatchModelCache,
        executor: &DecodeExecutor,
        batch: &RaggedBatch,
        grants: &Vec<u32>,
        prefill_rows: bool,
        choice: KernelChoice,
    ) -> (r: Result<Option<ExecutorRun>, ExecutorRunError>)
        requires
            old(cache).well_formed(),
            old(cache).layers@.len() == self.weights@.layers.len(),
        ensures
            ({
                let dispatch = executor.dispatch_of(
                    DecodeExecutor::query_of(batch@, old(cache).page_size, prefill_rows, choice),
                );
                let layers = old(cache).layers@;
                match r {
                    Ok(None) => !executor.takes(batch@) && *final(cache) == *old(cache),
                    Ok(Some(run)) => {
                        &&& executor.takes(batch@)
                        &&& final(cache).is_prepared(
                            *old(cache),
                            batch@,
                            grants@,
                            Ok::<PreparedTokens, BatchCacheError>(run.prepared),
                        )
                        &&& run.dispatch == dispatch
                        &&& if dispatch is Replay {
                            run.steps@.len() == 0
                        } else {
                            &&& layers_fit(self.weights@, layers, layers.len() as int)
                            &&& run.steps@ == executor_steps(
                                *self,
                                *executor,
                                prefill_rows,
                                choice,
                            )
                        }
                    },
                    Err(ExecutorRunError::Cache(e)) => {
                        &&& executor.takes(batch@)
                        &&& final(cache).is_prepared(
                            *old(cache),
                            batch@,
                            grants@,
                            Err::<PreparedTokens, BatchCacheError>(e),
                        )
                    },
                    Err(ExecutorRunError::Layers(e)) => {
                        &&& executor.takes(batch@)
                        &&& !(dispatch is Replay)
                        &&& is_first_mismatch(self.weights@, layers, e.layer as int)
                        &&& exists|prepared: PreparedTokens| #[trigger]
                            final(cache).is_prepared(
                                *old(cache),
                                batch@,
                                grants@,
                                Ok::<PreparedTokens, BatchCacheError>(prepared),
                            )
                    },
                }
            }),
    {
        if !executor.eligible(batch) {
            return Ok(None);
        }
        let prepared = match cache.prepare_ragged(batch, grants) {
            Ok(prepared) => prepared,
            Err(e) => {
                return Err(ExecutorRunError::Cache(e));
            },
        };
        let dispatch = executor.dispatch(
            GraphQuery {
                tokens: batch.token_ids.len(),
                context_tokens: longest_context(&batch.positions),
                page_size: cache.page_size.value(),
                prefill_rows,
                one_kernel: choice.one_kernel,
                splits: choice.splits,
            },
        );
        if let DecodeDispatch::Replay { .. } = dispatch {
            return Ok(Some(ExecutorRun { prepared, dispatch, steps: Vec::new() }));
        }
        let splits: usize = executor.attention_splits(choice.splits);
        let pass = self.executor_pass(prefill_rows, choice.one_kernel, splits);
        match plan_pass(&self.weights, &cache.layers, &pass) {
            Ok(steps) => Ok(Some(ExecutorRun { prepared, dispatch, steps })),
            Err(e) => Err(ExecutorRunError::Layers(e)),
        }
    }
}

/// What the executor runs for a batch, directly or in a graph.
pub open spec fn executor_steps(
    model: Lfm2Model,
    executor: DecodeExecutor,
    prefill_rows: bool,
    choice: KernelChoice,
) -> Seq<Step> {
    pass_steps(
        model.weights@,
        executor_pass_of(
            model,
            prefill_rows,
            choice.one_kernel,
            executor.splits_of(choice.splits),
        ),
    )
}

/// Every batch that the executor takes has one token in each segment.
pub proof fn taken_batches_are_decode_only(
    executor: DecodeExecutor,
    batch: RaggedView,
    cache: BatchModelCache,
    prefill_rows: bool,
    one_kernel: bool,
    flash_prefill: bool,
)
    requires
        executor.takes(batch),
    ensures
        shape_of(batch, cache, prefill_rows, one_kernel, flash_prefill).decode_only,
{
}

/// A batch that the executor takes gets the same computation there as in the batch pass, and
/// then its tokens: the same products in the same precision on the same inputs, and the head
/// on every row. It is enough that fp8 decoding is off or that the batch is within its limit.
/// How a kernel rounds its sums is the device's.
pub proof fn taken_batches_compute_the_batch_pass(
    model: Lfm2Model,
    executor: DecodeExecutor,
    batch: RaggedView,
    cache: BatchModelCache,
    prefill_rows: bool,
    choice: KernelChoice,
    flash_prefill: bool,
)
    requires
        executor.takes(batch),
        model.decode_fp8_enabled ==> batch.token_ids.len() <= model.maximum_fp8_batch,
    ensures
        ({
            let steps = executor_steps(model, executor, prefill_rows, choice);
            let shape = shape_of(batch, cache, prefill_rows, choice.one_kernel, flash_prefill);
            &&& computation(steps) == computation(
                pass_steps(model.weights@, batch_pass_of(model, shape)),
            )
            &&& steps.last().op == Op::Argmax
        }),
{
    let shape = shape_of(batch, cache, prefill_rows, choice.one_kernel, flash_prefill);
    executor_computes_the_batch_pass(model, shape, executor.splits_of(choice.splits));
}

/// A replayed graph has the steps of its capture: while the model stays as it is, the steps
/// that were planned when a bucket was captured are those of every batch that replays it.
pub proof fn replays_run_the_captured_steps(
    model: Lfm2Model,
    capturing: DecodeExecutor,
    replaying: DecodeExecutor,
    captured: RaggedView,
    replayed: RaggedView,
    page_size: KvPageSize,
    captured_prefill: bool,
    replayed_prefill: bool,
    captured_choice: KernelChoice,
    replayed_choice: KernelChoice,
    bucket: DecodeGraphBucket,
)
    requires
        capturing.dispatch_of(
            DecodeExecutor::query_of(captured, page_size, captured_prefill, captured_choice),
        ) == (DecodeDispatch::Capture { bucket }),
        replaying.dispatch_of(
            DecodeExecutor::query_of(replayed, page_size, replayed_prefill, replayed_choice),
        ) == (DecodeDispatch::Replay { bucket }),
    ensures
        executor_steps(model, capturing, captured_prefill, captured_choice) == executor_steps(
            model,
            replaying,
            replayed_prefill,
            replayed_choice,
        ),
{
}

proof fn lemma_rows_are_own(batch: RaggedView, upto: int, row: int)
    requires
        is_pure_decode(batch),
        row_defect(batch, upto) is None,
        0 <= row < upto <= batch.token_ids.len(),
    ensures
        batch.request_slots[row] == batch.segment_slots[row],
    decreases upto,
{
    assert(batch.output_rows[upto - 1] == upto - 1);
    if row < upto - 1 {
        lemma_rows_are_own(batch, upto - 1, row);
    }
}

/// A batch that the executor takes is entered in the cache as by a plain decode of the same
/// tokens: on equal caches with equal grants both give every token the same place, the same
/// table updates and the same segments, and leave equal slots.
pub proof fn executor_prepares_as_decoding(
    executor: DecodeExecutor,
    batch: RaggedView,
    grants: Seq<u32>,
    before: BatchModelCache,
    ragged: BatchModelCache,
    prepared: PreparedTokens,
    decode: BatchModelCache,
    r: Result<(PreparedTokens, DecodeSegments), BatchCacheError>,
)
    requires
        executor.takes(batch),
        ragged.is_prepared(
            before,
            batch,
            grants,
            Ok::<PreparedTokens, BatchCacheError>(prepared),
        ),
        decode.is_decode_prepared(
            before,
            batch.token_ids.len() as usize,
            batch.positions,
            batch.request_slots,
            grants,
            r,
        ),
    ensures
        r is Ok,
        r->Ok_0.0.physical_slots@ == prepared.physical_slots@,
        r->Ok_0.0.table_updates@ == prepared.table_updates@,
        r->Ok_0.0.granted_pages_used == prepared.granted_pages_used,
        r->Ok_0.1.offsets@ == batch.segment_offsets,
        r->Ok_0.1.slots@ == batch.segment_slots,
        r->Ok_0.1.output_rows@ == batch.output_rows,
        decode.slot_views() == ragged.slot_views(),
{
    let tokens = batch.token_ids.len() as int;
    assert(segment_defect(batch) is None);
    assert forall|row: int| 0 <= row < tokens implies batch.request_slots[row]
        == batch.segment_slots[row] by {
        lemma_rows_are_own(batch, tokens, row);
    }
    let segments = r->Ok_0.1;
    assert(segments.offsets@ =~= batch.segment_offsets);
    assert(segments.slots@ =~= batch.segment_slots);
    assert(segments.output_rows@ =~= batch.output_rows);
}

/// The rows that a decode batch gathers for its head are all of its rows, in order.
pub proof fn decode_batches_gather_every_row(executor: DecodeExecutor, batch: RaggedView, row: int)
    requires
        executor.takes(batch),
        0 <= row < batch.token_ids.len(),
    ensures
        batch.output_rows.len() == batch.token_ids.len(),
        batch.output_rows[row] == row,
        batch.segment_offsets[row] == row,
        batch.segment_offsets[row + 1] == row + 1,
{
}

/// Rows, columns and inner width of a product.
#[derive(Clone, Copy, Debug, PartialEq, Eq, Structural)]
pub struct LinearShape {
    pub m: usize,
    pub n: usize,
    pub k: usize,
}

/// The shape of an fp8 product on fixed buffers.
pub fn fp8_linear_shape(input: &[usize], weight: &[usize]) -> (r: Result<LinearShape, ExecutorError>)
    ensures
        r == (if input@.len() != 2 || weight@.len() != 2 {
            Err::<LinearShape, ExecutorError>(ExecutorError::NotRankTwo)
        } else if input@[0] == 0 || input@[1] == 0 || weight@[0] == 0 {
            Err::<LinearShape, ExecutorError>(ExecutorError::EmptyLinear)
        } else if weight@[1] != input@[1] {
            Err::<LinearShape, ExecutorError>(ExecutorError::InnerWidth)
        } else {
            Ok::<LinearShape, ExecutorError>(
                LinearShape { m: input@[0], n: weight@[0], k: input@[1] },
            )
        }),
{
    if input.len() != 2 || weight.len() != 2 {
        return Err(ExecutorError::NotRankTwo);
    }
    let m: usize = input[0];
    let k: usize = input[1];
    let n: usize = weight[0];
    if m == 0 || k == 0 || n == 0 {
        return Err(ExecutorError::EmptyLinear);
    }
    if weight[1] != k {
        return Err(ExecutorError::InnerWidth);
    }
    Ok(LinearShape { m, n, k })
}

/// A topology is captured once: whoever kept its graph replays it from then on.
pub proof fn captured_topology_is_replayed(
    before: DecodeExecutor,
    after: DecodeExecutor,
    query: GraphQuery,
    bucket: DecodeGraphBucket,
)
    requires
        before.dispatch_of(query) == (DecodeDispatch::Capture { bucket }),
        after == (match bucket {
            DecodeGraphBucket::Unsplit => DecodeExecutor { unsplit_captured: true, ..before },
            DecodeGraphBucket::Split8 => DecodeExecutor { split8_captured: true, ..before },
        }),
    ensures
        after.dispatch_of(query) == (DecodeDispatch::Replay { bucket }),
{
}

/// Only single-token decode steps on pages of sixteen, with a context in the measured range,
/// run from graphs.
pub proof fn graphs_are_bounded(executor: DecodeExecutor, query: GraphQuery)
    ensures
        executor.dispatch_of(query) != DecodeDispatch::Direct ==> query.tokens == 1
            && query.page_size == 16 && 128 <= query.context_tokens < 4096 && !query.one_kernel
            && !query.prefill_rows && (query.splits == 1 || query.splits == 8),
{
}

/// Largest batch that int8 tails serve.
pub const INT8_TINY_M_DOWN_MAX_BATCH: usize = 2;

/// Number formats of int8 tails: weight, then activation.
#[derive(Clone, Copy, Debug, PartialEq, Eq, Structural)]
pub enum Int8DownMode {
    W8A8,
    W8A16,
}

#[derive(Clone, Copy, Debug, PartialEq, Eq, Structural)]
pub enum Int8DownError {
    LayerOutOfRange,
    DuplicateLayer,
}

/// Which layers run their down projection with int8 weights.
#[derive(Debug)]
pub struct Int8DownState {
    pub installed: Vec<bool>,
    pub mode: Int8DownMode,
}

/// The layers of the production mask.
pub open spec fn production_int8_layers() -> Seq<usize> {
    seq![0usize, 1, 2, 3, 4, 5, 7]
}

pub open spec fn mask_defect(selected: Seq<usize>, layers: int) -> Option<Int8DownError> {
    if exists|i: int| 0 <= i < selected.len() && #[trigger] selected[i] >= layers {
        Some(Int8DownError::LayerOutOfRange)
    } else if !selected.no_duplicates() {
        Some(Int8DownError::DuplicateLayer)
    } else {
        None
    }
}

fn list_contains(values: &Vec<usize>, value: usize, upto: usize) -> (r: bool)
    requires
        upto <= values@.len(),
    ensures
        r == values@.take(upto as int).contains(value),
{
    let mut index: usize = 0;
    while index < upto
        invariant
            index <= upto <= values@.len(),
            forall|i: int| 0 <= i < index ==> #[trigger] values@[i] != value,
        decreases upto - index,
    {
        if values[index] == value {
            assert(values@.take(upto as int)[index as int] == value);
            return true;
        }
        index = index + 1;
    }
    false
}

impl Int8DownState {
    /// The production mask, if int8 tails are on.
    pub fn new(weights: &Lfm2Weights, enabled: bool) -> (r: Result<Option<Self>, Int8DownError>)
        ensures
            !enabled ==> r == Ok::<Option<Self>, Int8DownError>(None),
            enabled ==> match r {
                Ok(Some(state)) => {
                    &&& mask_defect(
                        production_int8_layers(),
                        weights@.layers.len() as int,
                    ) is None
                    &&& state.is_mask(production_int8_layers(), *weights, Int8DownMode::W8A8)
                },
                Ok(None) => false,
                Err(e) => mask_defect(production_int8_layers(), weights@.layers.len() as int)
                    == Some(e),
            },
    {
        let mut layers: Vec<usize> = Vec::new();
        if enabled {
            layers.push(0);
            layers.push(1);
            layers.push(2);
            layers.push(3);
            layers.push(4);
            layers.push(5);
            layers.push(7);
            assert(layers@ =~= production_int8_layers());
        }
        Int8DownState::new_with_layers(weights, &layers, Int8DownMode::W8A8)
    }

    /// Exactly the selected layers without an fp8 copy are installed.
    pub open spec fn is_mask(self, selected: Seq<usize>, weights: Lfm2Weights, mode: Int8DownMode) -> bool {
        &&& self.mode == mode
        &&& self.installed@ == Seq::new(
            weights@.layers.len(),
            |i: int| selected.contains(i as usize) && weights@.layers[i].down.fp8 is None,
        )
    }

    /// Int8 tails for the selected layers. Layers with an fp8 copy keep it.
    pub fn new_with_layers(weights: &Lfm2Weights, selected: &Vec<usize>, mode: Int8DownMode) -> (r: Result<
        Option<Self>,
        Int8DownError,
    >)
        ensures
            match r {
                Ok(None) => selected@.len() == 0,
                Ok(Some(state)) => {
                    &&& selected@.len() > 0
                    &&& mask_defect(selected@, weights@.layers.len() as int) is None
                    &&& state.is_mask(selected@, *weights, mode)
                },
                Err(e) => mask_defect(selected@, weights@.layers.len() as int) == Some(e),
            },
    {
        if selected.len() == 0 {
            return Ok(None);
        }
        let mut index: usize = 0;
        while index < selected.len()
            invariant
                index <= selected@.len(),
                forall|i: int| 0 <= i < index ==> #[trigger] selected@[i] < weights@.layers.len(),
            decreases selected@.len() - index,
        {
            if selected[index] >= weights.layers.len() {
                assert(selected@[index as int] >= weights@.layers.len());
                return Err(Int8DownError::LayerOutOfRange);
            }
            index = index + 1;
        }
        index = 0;
        while index < selected.len()
            invariant
                index <= selected@.len(),
                forall|i: int|
                    0 <= i < selected@.len() ==> #[trigger] selected@[i] < weights@.layers.len(),
                selected@.take(index as int).no_duplicates(),
            decreases selected@.len() - index,
        {
            if list_contains(selected, selected[index], index) {
                proof {
                    let sofar = selected@.take(index as int);
                    let j = choose|j: int|
                        0 <= j < sofar.len() && sofar[j] == selected@[index as int];
                    assert(selected@[j] == selected@[index as int] && j != index);
                }
                return Err(Int8DownError::DuplicateLayer);
            }
            proof {
                let sofar = selected@.take(index as int);
                let upto = selected@.take(index + 1);
                assert forall|i: int, j: int|
                    0 <= i < upto.len() && 0 <= j < upto.len() && i != j implies upto[i]
                    != upto[j] by {
                    if i < index && j < index {
                        assert(sofar[i] != sofar[j]);
                    } else if i < index {
                        assert(sofar[i] == selected@[i]);
                        assert(sofar.contains(sofar[i]));
                    } else {
                        assert(sofar[j] == selected@[j]);
                        assert(sofar.contains(sofar[j]));
                    }
                }
            }
            index = index + 1;
        }
        assert(selected@.take(index as int) =~= selected@);
        let mut installed: Vec<bool> = Vec::new();
        let mut layer: usize = 0;
        while layer < weights.layers.len()
            invariant
                layer <= weights@.layers.len(),
                selected@.take(selected@.len() as int) =~= selected@,
                installed@ == Seq::new(
                    layer as nat,
                    |i: int| selected@.contains(i as usize) && weights@.layers[i].down.fp8 is None,
                ),
            decreases weights@.layers.len() - layer,
        {
            let chosen: bool = list_contains(selected, layer, selected.len())
                && weights.layers[layer].down.fp8.is_none();
            installed.push(chosen);
            layer = layer + 1;
            assert(installed@ =~= Seq::new(
                layer as nat,
                |i: int| selected@.contains(i as usize) && weights@.layers[i].down.fp8 is None,
            ));
        }
        Ok(Some(Int8DownState { installed, mode }))
    }

    /// How a layer's down projection runs for `m` tokens, if int8 serves it.
    pub fn try_run(&self, layer: usize, m: usize) -> (r: Option<Int8DownMode>)
        ensures
            r == (if 0 < m <= INT8_TINY_M_DOWN_MAX_BATCH && layer < self.installed@.len()
                && self.installed@[layer as int] {
                Some(self.mode)
            } else {
                None
            }),
    {
        if m == 0 || m > INT8_TINY_M_DOWN_MAX_BATCH {
            return None;
        }
        if layer < self.installed.len() && self.installed[layer] {
            Some(self.mode)
        } else {
            None
        }
    }
}

} // verus!
