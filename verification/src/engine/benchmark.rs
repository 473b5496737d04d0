//! Benchmarks: what is measured, in which order, and what the measurements are held to.
//!
//! The application times the device and forms means; the plans, the bookkeeping on integers
//! and every verdict are made here.
use vstd::prelude::*;

use crate::bf16::{widen, Bf16};
use crate::cache::KvPageSize;
use crate::float::{F32, F64};
use crate::generation::sampler::last_maximum;
#[allow(unused_imports)]
use crate::generation::sampler::is_last_maximum;
#[allow(unused_imports)]
use crate::num::ceil_div;
use crate::num::div_ceil;
#[allow(unused_imports)]
use crate::order::is_ranking;
use crate::order::rank_descending;

verus! {

#[derive(Clone, Copy, Debug, PartialEq, Eq, Structural)]
pub enum BenchmarkError {
    NoBatchSizes,
    NoContexts,
    NoMeasuredSteps,
    ZeroBatch,
    NoPolicy,
    LengthOverflow,
    LengthExceedsModel,
    PageCountOverflow,
    KvBytesOverflow,
    NoPromptLengths,
    InvalidPromptLength { tokens: usize },
    InvalidShape,
    TokenCountOverflow,
    TooFewTokens,
    ZeroContext,
    /// A generation ended before it had all its tokens.
    StoppedEarly { reference: usize, candidate: usize, requested: usize },
    NoSamples,
    /// A sample has no time between tokens.
    MissingInterval,
}

/// `maximum` is the largest of the values.
pub open spec fn is_largest(values: Seq<usize>, maximum: usize) -> bool {
    &&& values.contains(maximum)
    &&& forall|i: int| 0 <= i < values.len() ==> #[trigger] values[i] <= maximum
}

fn largest(values: &[usize]) -> (r: usize)
    requires
        values@.len() > 0,
    ensures
        is_largest(values@, r),
{
    let mut best: usize = values[0];
    let mut index: usize = 1;
    assert(values@[0] == best);
    while index < values.len()
        invariant
            1 <= index <= values@.len(),
            values@.contains(best),
            forall|i: int| 0 <= i < index ==> #[trigger] values@[i] <= best,
        decreases values@.len() - index,
    {
        if values[index] > best {
            best = values[index];
            assert(values@[index as int] == best);
        }
        index = index + 1;
    }
    best
}

fn total_length(context: usize, warmup: usize, measured: usize) -> (r: Option<usize>)
    ensures
        r == (if context + warmup + measured <= usize::MAX {
            Some((context + warmup + measured) as usize)
        } else {
            None
        }),
{
    match context.checked_add(warmup) {
        Some(sum) => sum.checked_add(measured),
        None => None,
    }
}

/// The cache that a decode benchmark runs in.
#[derive(Clone, Copy, Debug, PartialEq, Eq, Structural)]
pub struct DecodePlan {
    pub maximum_batch: usize,
    pub maximum_pages: usize,
}

/// What keeps a decode benchmark from running, given its largest batch and context.
pub open spec fn decode_plan(
    batch: int,
    context: int,
    warmup: int,
    measured: int,
    limit: int,
    page_tokens: int,
) -> Result<DecodePlan, BenchmarkError> {
    let length = context + warmup + measured;
    let pages = batch * ceil_div(length, page_tokens);
    if measured == 0 {
        Err(BenchmarkError::NoMeasuredSteps)
    } else if batch == 0 {
        Err(BenchmarkError::ZeroBatch)
    } else if length > usize::MAX {
        Err(BenchmarkError::LengthOverflow)
    } else if length > limit {
        Err(BenchmarkError::LengthExceedsModel)
    } else if pages > usize::MAX {
        Err(BenchmarkError::PageCountOverflow)
    } else {
        Ok(DecodePlan { maximum_batch: batch as usize, maximum_pages: pages as usize })
    }
}

/// Plans the cache of a decode benchmark over several batch sizes and contexts.
pub fn plan_continuous_decode(
    batch_sizes: &[usize],
    contexts: &[usize],
    warmup_steps: usize,
    measured_steps: usize,
    limit: usize,
    page_size: KvPageSize,
) -> (r: Result<DecodePlan, BenchmarkError>)
    ensures
        if batch_sizes@.len() == 0 {
            r == Err::<DecodePlan, BenchmarkError>(BenchmarkError::NoBatchSizes)
        } else if contexts@.len() == 0 {
            r == Err::<DecodePlan, BenchmarkError>(BenchmarkError::NoContexts)
        } else {
            exists|batch: usize, context: usize|
                {
                    &&& #[trigger] is_largest(batch_sizes@, batch)
                    &&& #[trigger] is_largest(contexts@, context)
                    &&& r == decode_plan(
                        batch as int,
                        context as int,
                        warmup_steps as int,
                        measured_steps as int,
                        limit as int,
                        page_size.tokens(),
                    )
                }
        },
{
    if batch_sizes.len() == 0 {
        return Err(BenchmarkError::NoBatchSizes);
    }
    if contexts.len() == 0 {
        return Err(BenchmarkError::NoContexts);
    }
    let batch: usize = largest(batch_sizes);
    let context: usize = largest(contexts);
    assert(is_largest(batch_sizes@, batch) && is_largest(contexts@, context));
    if measured_steps == 0 {
        return Err(BenchmarkError::NoMeasuredSteps);
    }
    if batch == 0 {
        return Err(BenchmarkError::ZeroBatch);
    }
    let length: usize = match total_length(context, warmup_steps, measured_steps) {
        Some(length) => length,
        None => {
            return Err(BenchmarkError::LengthOverflow);
        },
    };
    if length > limit {
        return Err(BenchmarkError::LengthExceedsModel);
    }
    match batch.checked_mul(div_ceil(length, page_size.value())) {
        Some(pages) => Ok(DecodePlan { maximum_batch: batch, maximum_pages: pages }),
        None => Err(BenchmarkError::PageCountOverflow),
    }
}

/// Bytes that one token takes in the caches of all attention layers: a key and a value of
/// two bytes per element.
pub fn kv_bytes_per_token(attention_layers: usize, kv_heads: usize, head_dim: usize) -> (r: Result<
    usize,
    BenchmarkError,
>)
    ensures
        ({
            let overflow = attention_layers * 2 > usize::MAX || attention_layers * 2 * kv_heads
                > usize::MAX || attention_layers * 2 * kv_heads * head_dim > usize::MAX
                || attention_layers * 2 * kv_heads * head_dim * 2 > usize::MAX;
            match r {
                Ok(bytes) => !overflow && bytes == attention_layers * 2 * kv_heads * head_dim * 2,
                Err(e) => overflow && e == BenchmarkError::KvBytesOverflow,
            }
        }),
{
    let mut bytes: usize = attention_layers;
    match bytes.checked_mul(2) {
        Some(product) => {
            bytes = product;
        },
        None => {
            return Err(BenchmarkError::KvBytesOverflow);
        },
    }
    match bytes.checked_mul(kv_heads) {
        Some(product) => {
            bytes = product;
        },
        None => {
            return Err(BenchmarkError::KvBytesOverflow);
        },
    }
    match bytes.checked_mul(head_dim) {
        Some(product) => {
            bytes = product;
        },
        None => {
            return Err(BenchmarkError::KvBytesOverflow);
        },
    }
    match bytes.checked_mul(2) {
        Some(product) => Ok(product),
        None => Err(BenchmarkError::KvBytesOverflow),
    }
}

/// A point that was not measured for want of memory.
#[derive(Clone, Copy, Debug)]
pub struct ServingSkippedPoint {
    pub batch_size: usize,
    pub context_tokens: usize,
    pub required_kv_bytes: usize,
    pub free_vram_bytes: usize,
    pub reason: &'static str,
}

/// What to do about one point of a decode benchmark.
#[derive(Clone, Copy, Debug)]
pub enum PointPlan {
    /// Measure it, with this many positions reserved for every sequence.
    Measure { batch: usize, context: usize, capacity: usize },
    Skip(ServingSkippedPoint),
}

/// What a decode benchmark does at every point, and the memory it may use.
pub struct DecodeLoad {
    pub warmup_steps: usize,
    pub measured_steps: usize,
    pub kv_bytes_per_token: usize,
    pub free_vram_bytes: usize,
}

impl DecodeLoad {
    /// Positions that a sequence behind `context` tokens takes.
    pub open spec fn capacity(self, context: usize) -> int {
        context + self.warmup_steps + self.measured_steps
    }

    /// Bytes that the caches of a batch take.
    pub open spec fn kv_bytes(self, batch: usize, context: usize) -> int {
        batch * self.capacity(context) * self.kv_bytes_per_token
    }

    /// Why a point cannot be planned.
    pub open spec fn defect(self, batch: usize, context: usize) -> Option<BenchmarkError> {
        if self.capacity(context) > usize::MAX {
            Some(BenchmarkError::LengthOverflow)
        } else if batch * self.capacity(context) > usize::MAX || self.kv_bytes(batch, context)
            > usize::MAX {
            Some(BenchmarkError::KvBytesOverflow)
        } else {
            None
        }
    }

    /// `plan` is that of a point: it is skipped exactly if its caches do not fit.
    pub open spec fn is_plan(self, batch: usize, context: usize, plan: PointPlan) -> bool {
        &&& self.defect(batch, context) is None
        &&& match plan {
            PointPlan::Measure { batch: b, context: c, capacity } => {
                &&& b == batch
                &&& c == context
                &&& capacity == self.capacity(context)
                &&& self.kv_bytes(batch, context) <= self.free_vram_bytes
            },
            PointPlan::Skip(point) => {
                &&& self.kv_bytes(batch, context) > self.free_vram_bytes
                &&& point.batch_size == batch
                &&& point.context_tokens == context
                &&& point.required_kv_bytes == self.kv_bytes(batch, context)
                &&& point.free_vram_bytes == self.free_vram_bytes
                &&& point.reason@ == "insufficient_free_vram_before_kv_allocation"@
            },
        }
    }
}

/// Plans one point of a decode benchmark.
pub fn plan_decode_point(
    batch: usize,
    context: usize,
    warmup_steps: usize,
    measured_steps: usize,
    kv_bytes_per_token: usize,
    free_vram_bytes: usize,
) -> (r: Result<PointPlan, BenchmarkError>)
    ensures
        ({
            let load = DecodeLoad { warmup_steps, measured_steps, kv_bytes_per_token, free_vram_bytes };
            match r {
                Ok(plan) => load.is_plan(batch, context, plan),
                Err(e) => load.defect(batch, context) == Some(e),
            }
        }),
{
    let capacity: usize = match total_length(context, warmup_steps, measured_steps) {
        Some(capacity) => capacity,
        None => {
            return Err(BenchmarkError::LengthOverflow);
        },
    };
    let tokens: usize = match batch.checked_mul(capacity) {
        Some(tokens) => tokens,
        None => {
            return Err(BenchmarkError::KvBytesOverflow);
        },
    };
    let required_kv_bytes: usize = match tokens.checked_mul(kv_bytes_per_token) {
        Some(bytes) => bytes,
        None => {
            return Err(BenchmarkError::KvBytesOverflow);
        },
    };
    if required_kv_bytes > free_vram_bytes {
        Ok(
            PointPlan::Skip(
                ServingSkippedPoint {
                    batch_size: batch,
                    context_tokens: context,
                    required_kv_bytes,
                    free_vram_bytes,
                    reason: "insufficient_free_vram_before_kv_allocation",
                },
            ),
        )
    } else {
        Ok(PointPlan::Measure { batch, context, capacity })
    }
}

/// The batch of a grid point. Points are listed context by context.
pub open spec fn grid_batch(batch_sizes: Seq<usize>, point: int) -> usize {
    batch_sizes[point % batch_sizes.len() as int]
}

/// The context of a grid point.
pub open spec fn grid_context(batch_sizes: Seq<usize>, contexts: Seq<usize>, point: int) -> usize {
    contexts[point / batch_sizes.len() as int]
}

/// The grid holds every pair of a context and a batch size exactly once, contexts outermost:
/// that of context `c` and batch size `b` is point `c * batch_sizes.len() + b`, and no other.
pub proof fn grid_holds_every_pair_once(
    batch_sizes: Seq<usize>,
    contexts: Seq<usize>,
    c: int,
    b: int,
    point: int,
)
    requires
        0 <= c < contexts.len(),
        0 <= b < batch_sizes.len(),
        0 <= point < contexts.len() * batch_sizes.len(),
    ensures
        0 <= c * batch_sizes.len() + b < contexts.len() * batch_sizes.len(),
        grid_context(batch_sizes, contexts, c * batch_sizes.len() + b) == contexts[c],
        grid_batch(batch_sizes, c * batch_sizes.len() + b) == batch_sizes[b],
        0 <= point / (batch_sizes.len() as int) < contexts.len(),
        0 <= point % (batch_sizes.len() as int) < batch_sizes.len(),
        point / (batch_sizes.len() as int) == c && point % (batch_sizes.len() as int) == b
            <==> point == c * batch_sizes.len() + b,
{
    let n = batch_sizes.len() as int;
    let m = contexts.len() as int;
    lemma_pair(batch_sizes, contexts, c, b);
    assert(point == n * (point / n) + point % n) by {
        vstd::arithmetic::div_mod::lemma_fundamental_div_mod(point, n);
    }
    assert(0 <= point % n < n) by (nonlinear_arith)
        requires
            n > 0,
    ;
    assert(0 <= point / n < m) by (nonlinear_arith)
        requires
            0 <= point < m * n,
            point == n * (point / n) + point % n,
            0 <= point % n < n,
    ;
    assert(n * (point / n) == (point / n) * n) by (nonlinear_arith);
}

proof fn lemma_pair(batch_sizes: Seq<usize>, contexts: Seq<usize>, c: int, b: int)
    requires
        0 <= c < contexts.len(),
        0 <= b < batch_sizes.len(),
    ensures
        0 <= c * batch_sizes.len() + b < contexts.len() * batch_sizes.len(),
        (c * batch_sizes.len() + b) / (batch_sizes.len() as int) == c,
        (c * batch_sizes.len() + b) % (batch_sizes.len() as int) == b,
{
    let n = batch_sizes.len() as int;
    let m = contexts.len() as int;
    vstd::arithmetic::div_mod::lemma_fundamental_div_mod_converse(c * n + b, n, c, b);
    assert(0 <= c * n + b < m * n) by (nonlinear_arith)
        requires
            0 <= c < m,
            0 <= b < n,
    ;
}

impl DecodeLoad {
    /// The plans are those of all grid points, in order.
    pub open spec fn are_plans(
        self,
        batch_sizes: Seq<usize>,
        contexts: Seq<usize>,
        plans: Seq<PointPlan>,
    ) -> bool {
        forall|i: int|
            0 <= i < plans.len() ==> self.is_plan(
                grid_batch(batch_sizes, i),
                grid_context(batch_sizes, contexts, i),
                #[trigger] plans[i],
            )
    }

    /// The first grid point that cannot be planned has this defect.
    pub open spec fn fails_with(
        self,
        batch_sizes: Seq<usize>,
        contexts: Seq<usize>,
        e: BenchmarkError,
    ) -> bool {
        exists|i: int|
            {
                &&& 0 <= i < contexts.len() * batch_sizes.len()
                &&& #[trigger] self.defect(
                    grid_batch(batch_sizes, i),
                    grid_context(batch_sizes, contexts, i),
                ) == Some(e)
                &&& forall|j: int|
                    0 <= j < i ==> #[trigger] self.defect(
                        grid_batch(batch_sizes, j),
                        grid_context(batch_sizes, contexts, j),
                    ) is None
            }
    }
}

/// Plans all points of a decode benchmark, context by context.
pub fn plan_decode_points(
    batch_sizes: &[usize],
    contexts: &[usize],
    warmup_steps: usize,
    measured_steps: usize,
    kv_bytes_per_token: usize,
    free_vram_bytes: usize,
) -> (r: Result<Vec<PointPlan>, BenchmarkError>)
    ensures
        ({
            let load = DecodeLoad { warmup_steps, measured_steps, kv_bytes_per_token, free_vram_bytes };
            match r {
                Ok(plans) => {
                    &&& plans@.len() == contexts@.len() * batch_sizes@.len()
                    &&& load.are_plans(batch_sizes@, contexts@, plans@)
                },
                Err(e) => load.fails_with(batch_sizes@, contexts@, e),
            }
        }),
{
    let ghost load = DecodeLoad { warmup_steps, measured_steps, kv_bytes_per_token, free_vram_bytes };
    let mut plans: Vec<PointPlan> = Vec::new();
    let mut c: usize = 0;
    while c < contexts.len()
        invariant
            load == (DecodeLoad { warmup_steps, measured_steps, kv_bytes_per_token, free_vram_bytes }),
            c <= contexts@.len(),
            plans@.len() == c * batch_sizes@.len(),
            forall|i: int|
                0 <= i < plans@.len() ==> load.is_plan(
                    grid_batch(batch_sizes@, i),
                    grid_context(batch_sizes@, contexts@, i),
                    #[trigger] plans@[i],
                ),
        decreases contexts@.len() - c,
    {
        let mut b: usize = 0;
        while b < batch_sizes.len()
            invariant
                load == (DecodeLoad { warmup_steps, measured_steps, kv_bytes_per_token, free_vram_bytes }),
                c < contexts@.len(),
                b <= batch_sizes@.len(),
                plans@.len() == c * batch_sizes@.len() + b,
                forall|i: int|
                    0 <= i < plans@.len() ==> load.is_plan(
                        grid_batch(batch_sizes@, i),
                        grid_context(batch_sizes@, contexts@, i),
                        #[trigger] plans@[i],
                    ),
            decreases batch_sizes@.len() - b,
        {
            proof {
                lemma_pair(batch_sizes@, contexts@, c as int, b as int);
            }
            match plan_decode_point(
                batch_sizes[b],
                contexts[c],
                warmup_steps,
                measured_steps,
                kv_bytes_per_token,
                free_vram_bytes,
            ) {
                Ok(plan) => {
                    plans.push(plan);
                },
                Err(e) => {
                    proof {
                        let at = plans@.len() as int;
                        assert(load.defect(
                            grid_batch(batch_sizes@, at),
                            grid_context(batch_sizes@, contexts@, at),
                        ) == Some(e));
                        assert forall|j: int| 0 <= j < at implies #[trigger] load.defect(
                            grid_batch(batch_sizes@, j),
                            grid_context(batch_sizes@, contexts@, j),
                        ) is None by {
                            assert(load.is_plan(
                                grid_batch(batch_sizes@, j),
                                grid_context(batch_sizes@, contexts@, j),
                                plans@[j],
                            ));
                        }
                    }
                    return Err(e);
                },
            }
            b = b + 1;
        }
        proof {
            lemma_next_row(c as int, batch_sizes@.len() as int);
        }
        c = c + 1;
    }
    Ok(plans)
}

proof fn lemma_next_row(c: int, n: int)
    ensures
        (c + 1) * n == c * n + n,
{
    assert((c + 1) * n == c * n + n) by (nonlinear_arith);
}

/// A point to measure, with the positions reserved for every sequence.
#[derive(Clone, Copy, Debug, PartialEq, Eq, Structural)]
pub struct MeasuredPoint {
    pub batch: usize,
    pub context: usize,
    pub capacity: usize,
}

/// The points to measure among the first `upto` plans, in order.
pub open spec fn measured_points(plans: Seq<PointPlan>, upto: int) -> Seq<MeasuredPoint>
    decreases upto,
{
    if upto <= 0 {
        Seq::empty()
    } else {
        match plans[upto - 1] {
            PointPlan::Measure { batch, context, capacity } => measured_points(
                plans,
                upto - 1,
            ).push(MeasuredPoint { batch, context, capacity }),
            PointPlan::Skip(_) => measured_points(plans, upto - 1),
        }
    }
}

/// The points to skip among the first `upto` plans, in order.
pub open spec fn skipped_points(plans: Seq<PointPlan>, upto: int) -> Seq<ServingSkippedPoint>
    decreases upto,
{
    if upto <= 0 {
        Seq::empty()
    } else {
        match plans[upto - 1] {
            PointPlan::Measure { .. } => skipped_points(plans, upto - 1),
            PointPlan::Skip(point) => skipped_points(plans, upto - 1).push(point),
        }
    }
}

/// Separates the points to measure from those to skip. Every planned point is one or the
/// other, and both lists keep the order of the plans.
pub fn separate_points(plans: &Vec<PointPlan>) -> (r: (Vec<MeasuredPoint>, Vec<ServingSkippedPoint>))
    ensures
        r.0@ == measured_points(plans@, plans@.len() as int),
        r.1@ == skipped_points(plans@, plans@.len() as int),
        r.0@.len() + r.1@.len() == plans@.len(),
{
    let mut measured: Vec<MeasuredPoint> = Vec::new();
    let mut skipped: Vec<ServingSkippedPoint> = Vec::new();
    let mut index: usize = 0;
    while index < plans.len()
        invariant
            index <= plans@.len(),
            measured@ == measured_points(plans@, index as int),
            skipped@ == skipped_points(plans@, index as int),
            measured@.len() + skipped@.len() == index,
        decreases plans@.len() - index,
    {
        match plans[index] {
            PointPlan::Measure { batch, context, capacity } => {
                measured.push(MeasuredPoint { batch, context, capacity });
            },
            PointPlan::Skip(point) => {
                skipped.push(point);
            },
        }
        index = index + 1;
    }
    (measured, skipped)
}

/// One point of a paired decode benchmark, with its cache.
#[derive(Clone, Copy, Debug, PartialEq, Eq, Structural)]
pub struct BatchedPointPlan {
    pub batch: usize,
    pub context: usize,
    /// Positions reserved for every sequence.
    pub capacity: usize,
    /// Pages of the whole batch.
    pub pages: usize,
}

/// What a paired decode benchmark does at every point, and the model it runs.
pub struct PairedLoad {
    pub warmup_pairs: usize,
    pub measured_pairs: usize,
    pub max_position_embeddings: usize,
    pub page_size: KvPageSize,
}

impl PairedLoad {
    /// The plan of a point, or why there is none.
    pub open spec fn plan(self, batch: usize, context: usize) -> Result<
        BatchedPointPlan,
        BenchmarkError,
    > {
        let capacity = context + self.warmup_pairs + self.measured_pairs;
        let pages = batch * ceil_div(capacity, self.page_size.tokens());
        if capacity > usize::MAX {
            Err(BenchmarkError::LengthOverflow)
        } else if capacity > self.max_position_embeddings {
            Err(BenchmarkError::LengthExceedsModel)
        } else if pages > usize::MAX {
            Err(BenchmarkError::PageCountOverflow)
        } else {
            Ok(
                BatchedPointPlan {
                    batch,
                    context,
                    capacity: capacity as usize,
                    pages: pages as usize,
                },
            )
        }
    }
}

/// Plans one point of a paired decode benchmark.
pub fn plan_batched_fp8_point(
    batch: usize,
    context: usize,
    warmup_pairs: usize,
    measured_pairs: usize,
    limit: usize,
    page_size: KvPageSize,
) -> (r: Result<BatchedPointPlan, BenchmarkError>)
    ensures
        r == (PairedLoad { warmup_pairs, measured_pairs, max_position_embeddings: limit, page_size }).plan(
            batch,
            context,
        ),
{
    let capacity: usize = match total_length(context, warmup_pairs, measured_pairs) {
        Some(capacity) => capacity,
        None => {
            return Err(BenchmarkError::LengthOverflow);
        },
    };
    if capacity > limit {
        return Err(BenchmarkError::LengthExceedsModel);
    }
    match batch.checked_mul(div_ceil(capacity, page_size.value())) {
        Some(pages) => Ok(BatchedPointPlan { batch, context, capacity, pages }),
        None => Err(BenchmarkError::PageCountOverflow),
    }
}

impl PairedLoad {
    /// The plans are those of all grid points, in order.
    pub open spec fn are_plans(
        self,
        batch_sizes: Seq<usize>,
        contexts: Seq<usize>,
        plans: Seq<BatchedPointPlan>,
    ) -> bool {
        forall|i: int|
            0 <= i < plans.len() ==> self.plan(
                grid_batch(batch_sizes, i),
                grid_context(batch_sizes, contexts, i),
            ) == Ok::<BatchedPointPlan, BenchmarkError>(#[trigger] plans[i])
    }

    /// The first grid point that cannot be planned fails in this way.
    pub open spec fn fails_with(
        self,
        batch_sizes: Seq<usize>,
        contexts: Seq<usize>,
        e: BenchmarkError,
    ) -> bool {
        exists|i: int|
            {
                &&& 0 <= i < contexts.len() * batch_sizes.len()
                &&& #[trigger] self.plan(
                    grid_batch(batch_sizes, i),
                    grid_context(batch_sizes, contexts, i),
                ) == Err::<BatchedPointPlan, BenchmarkError>(e)
                &&& forall|j: int|
                    0 <= j < i ==> #[trigger] self.plan(
                        grid_batch(batch_sizes, j),
                        grid_context(batch_sizes, contexts, j),
                    ) is Ok
            }
    }
}

/// Plans all points of a paired decode benchmark, context by context.
pub fn plan_batched_fp8_points(
    batch_sizes: &[usize],
    contexts: &[usize],
    warmup_pairs: usize,
    measured_pairs: usize,
    limit: usize,
    page_size: KvPageSize,
) -> (r: Result<Vec<BatchedPointPlan>, BenchmarkError>)
    ensures
        ({
            let load = PairedLoad { warmup_pairs, measured_pairs, max_position_embeddings: limit, page_size };
            match r {
                Ok(plans) => {
                    &&& plans@.len() == contexts@.len() * batch_sizes@.len()
                    &&& load.are_plans(batch_sizes@, contexts@, plans@)
                },
                Err(e) => load.fails_with(batch_sizes@, contexts@, e),
            }
        }),
{
    let ghost load = PairedLoad { warmup_pairs, measured_pairs, max_position_embeddings: limit, page_size };
    let mut plans: Vec<BatchedPointPlan> = Vec::new();
    let mut c: usize = 0;
    while c < contexts.len()
        invariant
            load == (PairedLoad { warmup_pairs, measured_pairs, max_position_embeddings: limit, page_size }),
            c <= contexts@.len(),
            plans@.len() == c * batch_sizes@.len(),
            forall|i: int|
                0 <= i < plans@.len() ==> load.plan(
                    grid_batch(batch_sizes@, i),
                    grid_context(batch_sizes@, contexts@, i),
                ) == Ok::<BatchedPointPlan, BenchmarkError>(#[trigger] plans@[i]),
        decreases contexts@.len() - c,
    {
        let mut b: usize = 0;
        while b < batch_sizes.len()
            invariant
                load == (PairedLoad { warmup_pairs, measured_pairs, max_position_embeddings: limit, page_size }),
                c < contexts@.len(),
                b <= batch_sizes@.len(),
                plans@.len() == c * batch_sizes@.len() + b,
                forall|i: int|
                    0 <= i < plans@.len() ==> load.plan(
                        grid_batch(batch_sizes@, i),
                        grid_context(batch_sizes@, contexts@, i),
                    ) == Ok::<BatchedPointPlan, BenchmarkError>(#[trigger] plans@[i]),
            decreases batch_sizes@.len() - b,
        {
            proof {
                lemma_pair(batch_sizes@, contexts@, c as int, b as int);
            }
            match plan_batched_fp8_point(
                batch_sizes[b],
                contexts[c],
                warmup_pairs,
                measured_pairs,
                limit,
                page_size,
            ) {
                Ok(plan) => {
                    plans.push(plan);
                },
                Err(e) => {
                    proof {
                        let at = plans@.len() as int;
                        assert(load.plan(
                            grid_batch(batch_sizes@, at),
                            grid_context(batch_sizes@, contexts@, at),
                        ) == Err::<BatchedPointPlan, BenchmarkError>(e));
                        assert forall|j: int| 0 <= j < at implies #[trigger] load.plan(
                            grid_batch(batch_sizes@, j),
                            grid_context(batch_sizes@, contexts@, j),
                        ) is Ok by {
                            assert(load.plan(
                                grid_batch(batch_sizes@, j),
                                grid_context(batch_sizes@, contexts@, j),
                            ) == Ok::<BatchedPointPlan, BenchmarkError>(plans@[j]));
                        }
                    }
                    return Err(e);
                },
            }
            b = b + 1;
        }
        proof {
            lemma_next_row(c as int, batch_sizes@.len() as int);
        }
        c = c + 1;
    }
    Ok(plans)
}

/// Checks a paired decode benchmark and gives the largest batch that it prepares for.
pub fn check_batched_fp8(fp8_enabled: bool, batch_sizes: &[usize], measured_pairs: usize) -> (r: Result<
    usize,
    BenchmarkError,
>)
    ensures
        match r {
            Ok(batch) => fp8_enabled && measured_pairs > 0 && is_largest(batch_sizes@, batch),
            Err(e) => e == (if !fp8_enabled {
                BenchmarkError::NoPolicy
            } else if batch_sizes@.len() == 0 {
                BenchmarkError::NoBatchSizes
            } else {
                BenchmarkError::NoMeasuredSteps
            }) && (!fp8_enabled || batch_sizes@.len() == 0 || measured_pairs == 0),
        },
{
    if !fp8_enabled {
        return Err(BenchmarkError::NoPolicy);
    }
    if batch_sizes.len() == 0 {
        return Err(BenchmarkError::NoBatchSizes);
    }
    if measured_pairs == 0 {
        return Err(BenchmarkError::NoMeasuredSteps);
    }
    Ok(largest(batch_sizes))
}

/// Checks one prompt length of a prefill benchmark and gives the pages that it needs.
pub fn plan_prefill_point(tokens: usize, limit: usize, page_size: KvPageSize) -> (r: Result<
    usize,
    BenchmarkError,
>)
    ensures
        r == (if 0 < tokens <= limit {
            Ok::<usize, BenchmarkError>(ceil_div(tokens as int, page_size.tokens()) as usize)
        } else {
            Err::<usize, BenchmarkError>(BenchmarkError::InvalidPromptLength { tokens })
        }),
{
    if tokens == 0 || tokens > limit {
        return Err(BenchmarkError::InvalidPromptLength { tokens });
    }
    Ok(div_ceil(tokens, page_size.value()))
}

/// Checks a prefill benchmark as a whole.
pub fn check_prefill_benchmark(prompt_lengths: &[usize], measured_steps: usize) -> (r: Result<
    (),
    BenchmarkError,
>)
    ensures
        r == (if prompt_lengths@.len() == 0 {
            Err::<(), BenchmarkError>(BenchmarkError::NoPromptLengths)
        } else if measured_steps == 0 {
            Err::<(), BenchmarkError>(BenchmarkError::NoMeasuredSteps)
        } else {
            Ok::<(), BenchmarkError>(())
        }),
{
    if prompt_lengths.len() == 0 {
        Err(BenchmarkError::NoPromptLengths)
    } else if measured_steps == 0 {
        Err(BenchmarkError::NoMeasuredSteps)
    } else {
        Ok(())
    }
}

/// Plans the comparison of a ragged prefill with a contiguous one: the pages and rows of
/// the batch.
pub fn plan_ragged_validation(tokens_per_sequence: usize, batch_size: usize, page_size: KvPageSize) -> (r:
    Result<(usize, usize), BenchmarkError>)
    ensures
        ({
            let pages = batch_size * ceil_div(tokens_per_sequence as int, page_size.tokens());
            let rows = batch_size * tokens_per_sequence;
            r == (if tokens_per_sequence == 0 || batch_size <= 1 {
                Err::<(usize, usize), BenchmarkError>(BenchmarkError::InvalidShape)
            } else if pages > usize::MAX {
                Err::<(usize, usize), BenchmarkError>(BenchmarkError::PageCountOverflow)
            } else if rows > usize::MAX {
                Err::<(usize, usize), BenchmarkError>(BenchmarkError::TokenCountOverflow)
            } else {
                Ok::<(usize, usize), BenchmarkError>((pages as usize, rows as usize))
            })
        }),
{
    if tokens_per_sequence == 0 || batch_size <= 1 {
        return Err(BenchmarkError::InvalidShape);
    }
    let pages: usize = match batch_size.checked_mul(
        div_ceil(tokens_per_sequence, page_size.value()),
    ) {
        Some(pages) => pages,
        None => {
            return Err(BenchmarkError::PageCountOverflow);
        },
    };
    match batch_size.checked_mul(tokens_per_sequence) {
        Some(rows) => Ok((pages, rows)),
        None => Err(BenchmarkError::TokenCountOverflow),
    }
}

/// The widened scores of a row.
pub open spec fn row_scores(values: Seq<Bf16>, start: int, width: int) -> Seq<F32> {
    Seq::new(width as nat, |i: int| values[start + i].widened())
}

/// The position of a row's largest value, of equal ones the last; none in an empty row.
pub open spec fn is_argmax(scores: Seq<F32>, r: Option<usize>) -> bool {
    match r {
        Some(index) => is_last_maximum(scores, index as int),
        None => scores.len() == 0,
    }
}

/// The position of the largest value among `width` values from `start` on.
pub fn cpu_argmax_bf16(values: &[Bf16], start: usize, width: usize) -> (r: Option<usize>)
    requires
        start + width <= values@.len(),
    ensures
        is_argmax(row_scores(values@, start as int, width as int), r),
{
    let available: usize = values.len();
    let mut scores: Vec<F32> = Vec::new();
    let mut index: usize = 0;
    while index < width
        invariant
            index <= width,
            start + width <= values@.len() <= usize::MAX,
            scores@ == row_scores(values@, start as int, index as int),
        decreases width - index,
    {
        scores.push(widen(values[start + index]));
        index = index + 1;
        assert(scores@ =~= row_scores(values@, start as int, index as int));
    }
    match last_maximum(scores.as_slice()) {
        Ok(index) => Some(index),
        Err(_) => None,
    }
}

proof fn lemma_argmax_unique(scores: Seq<F32>, a: Option<usize>, b: Option<usize>)
    requires
        is_argmax(scores, a),
        is_argmax(scores, b),
    ensures
        a == b,
{
    if let (Some(i), Some(j)) = (a, b) {
        assert(scores[i as int].total_order() <= scores[j as int].total_order());
        assert(scores[j as int].total_order() <= scores[i as int].total_order());
    }
}

/// Row `row` of two batches of logits has its largest value at the same position.
pub open spec fn rows_agree(reference: Seq<Bf16>, candidate: Seq<Bf16>, width: int, row: int) -> bool {
    exists|place: Option<usize>|
        #[trigger] is_argmax(row_scores(reference, row * width, width), place) && is_argmax(
            row_scores(candidate, row * width, width),
            place,
        )
}

/// How many of the first `upto` rows agree.
pub open spec fn agreeing_rows(
    reference: Seq<Bf16>,
    candidate: Seq<Bf16>,
    width: int,
    upto: int,
) -> int
    decreases upto,
{
    if upto <= 0 {
        0
    } else {
        agreeing_rows(reference, candidate, width, upto - 1) + if rows_agree(
            reference,
            candidate,
            width,
            upto - 1,
        ) {
            1int
        } else {
            0int
        }
    }
}

proof fn lemma_row_fits(row: int, rows: int, width: int)
    requires
        0 <= row < rows,
        0 <= width,
    ensures
        0 <= row * width,
        row * width + width <= rows * width,
{
    assert(0 <= row * width && row * width + width <= rows * width) by (nonlinear_arith)
        requires
            0 <= row < rows,
            0 <= width,
    ;
}

/// Counts the rows in which two batches of logits put their largest value at the same
/// position.
pub fn count_agreeing_rows(reference: &[Bf16], candidate: &[Bf16], width: usize, rows: usize) -> (r:
    usize)
    requires
        rows * width <= reference@.len(),
        rows * width <= candidate@.len(),
    ensures
        r == agreeing_rows(reference@, candidate@, width as int, rows as int),
{
    let length: usize = reference.len();
    let other: usize = candidate.len();
    let mut count: usize = 0;
    let mut row: usize = 0;
    while row < rows
        invariant
            row <= rows,
            count <= row,
            rows * width <= reference@.len() <= usize::MAX,
            rows * width <= candidate@.len(),
            count == agreeing_rows(reference@, candidate@, width as int, row as int),
        decreases rows - row,
    {
        proof {
            lemma_row_fits(row as int, rows as int, width as int);
        }
        let start: usize = row * width;
        let left = cpu_argmax_bf16(reference, start, width);
        let right = cpu_argmax_bf16(candidate, start, width);
        proof {
            let a = row_scores(reference@, row * width, width as int);
            let b = row_scores(candidate@, row * width, width as int);
            if rows_agree(reference@, candidate@, width as int, row as int) {
                let place = choose|place: Option<usize>|
                    #[trigger] is_argmax(a, place) && is_argmax(b, place);
                lemma_argmax_unique(a, left, place);
                lemma_argmax_unique(b, right, place);
            }
        }
        if left == right {
            assert(is_argmax(row_scores(reference@, row * width, width as int), left));
            count = count + 1;
        }
        row = row + 1;
    }
    count
}

/// The row at `row` has its largest value where the reference row has its own.
pub open spec fn row_agrees_with(
    reference: Seq<F32>,
    values: Seq<Bf16>,
    width: int,
    row: int,
) -> bool {
    exists|place: Option<usize>|
        #[trigger] is_argmax(reference, place) && is_argmax(
            row_scores(values, row * width, width),
            place,
        )
}

/// All rows from `first` on have their largest value where the reference row has its own.
pub open spec fn rows_follow(reference: Seq<Bf16>, values: Seq<Bf16>, first: int, rows: int) -> bool {
    forall|row: int|
        first <= row < rows ==> #[trigger] row_agrees_with(
            row_scores(reference, 0, reference.len() as int),
            values,
            reference.len() as int,
            row,
        )
}

/// Whether all rows from `first` on have their largest value where the reference row has
/// its own.
pub fn all_rows_agree(reference: &[Bf16], values: &[Bf16], first: usize, rows: usize) -> (r: bool)
    requires
        rows * reference@.len() <= values@.len(),
    ensures
        r == rows_follow(reference@, values@, first as int, rows as int),
{
    let width: usize = reference.len();
    let length: usize = values.len();
    let expected = cpu_argmax_bf16(reference, 0, width);
    let ghost scores = row_scores(reference@, 0, width as int);
    let mut agree: bool = true;
    let mut row: usize = first;
    while row < rows
        invariant
            first <= row,
            row <= rows || row == first,
            width == reference@.len(),
            rows * width <= values@.len() <= usize::MAX,
            scores == row_scores(reference@, 0, width as int),
            is_argmax(scores, expected),
            agree == (forall|k: int|
                first <= k < row ==> #[trigger] row_agrees_with(
                    scores,
                    values@,
                    width as int,
                    k,
                )),
        decreases rows - row,
    {
        proof {
            lemma_row_fits(row as int, rows as int, width as int);
        }
        let place = cpu_argmax_bf16(values, row * width, width);
        proof {
            let own = row_scores(values@, row * width, width as int);
            if row_agrees_with(scores, values@, width as int, row as int) {
                let both = choose|both: Option<usize>|
                    #[trigger] is_argmax(scores, both) && is_argmax(own, both);
                lemma_argmax_unique(scores, expected, both);
                lemma_argmax_unique(own, place, both);
            }
            if place == expected {
                assert(is_argmax(scores, expected) && is_argmax(own, expected));
                assert(row_agrees_with(scores, values@, width as int, row as int));
            }
        }
        if place != expected {
            agree = false;
        }
        row = row + 1;
    }
    agree
}

/// Bits of 50.0: milliseconds that a decode step may take.
pub const STEP_LIMIT_MS: u64 = 0x4049_0000_0000_0000;

/// Bits of 350.0: milliseconds that an interactive prefill may take.
pub const INTERACTIVE_PREFILL_MS: u64 = 0x4075_e000_0000_0000;

/// Bits of 0.10: largest relative error of smoke-tested logits.
pub const SMOKE_ERROR_LIMIT: u64 = 0x3fb9_9999_9999_999a;

/// Bits of 0.995: smallest cosine of smoke-tested logits.
pub const SMOKE_COSINE_FLOOR: u64 = 0x3fef_d70a_3d70_a3d7;

/// Bits of 0.99: smallest share of rows whose largest logit agrees.
pub const SMOKE_AGREEMENT_FLOOR: u64 = 0x3fef_ae14_7ae1_47ae;

/// Bits of 1.02: speed-up that is worth having.
pub const SPEEDUP_FLOOR: u64 = 0x3ff0_51eb_851e_b852;

/// Whether decode steps are fast enough.
pub fn meets_step_limit(step_p95_ms: F64) -> (r: bool)
    ensures
        r == (F64 { bits: STEP_LIMIT_MS }).is_above(step_p95_ms),
{
    (F64 { bits: STEP_LIMIT_MS }).above(step_p95_ms)
}

/// Tokens per second that count: none where decode steps are too slow.
pub fn goodput(tokens_per_second: F64, meets_limit: bool) -> (r: F64)
    ensures
        r == (if meets_limit {
            tokens_per_second
        } else {
            F64 { bits: 0 }
        }),
{
    if meets_limit {
        tokens_per_second
    } else {
        F64 { bits: 0 }
    }
}

/// The precision that a batch decodes in.
pub fn decode_precision(fp8_enabled: bool, maximum_fp8_batch: usize, batch: usize) -> (r: &'static str)
    ensures
        r@ == (if fp8_enabled && batch <= maximum_fp8_batch {
            "selective_e4m3"@
        } else {
            "bf16"@
        }),
{
    if fp8_enabled && batch <= maximum_fp8_batch {
        "selective_e4m3"
    } else {
        "bf16"
    }
}

/// Cached positions that hold no token, and all positions of the allocated pages.
pub fn unused_positions(allocated_pages: usize, page_size: KvPageSize, live_tokens: usize) -> (r: (
    usize,
    usize,
))
    requires
        allocated_pages * page_size.tokens() <= usize::MAX,
    ensures
        r.1 == allocated_pages * page_size.tokens(),
        r.0 == crate::num::max_int(r.1 - live_tokens, 0),
{
    let positions: usize = allocated_pages * page_size.value();
    (positions.saturating_sub(live_tokens), positions)
}

/// Whether the logits of a paired benchmark are close enough for a smoke test.
pub fn passes_smoke_test(non_finite_logits: usize, nrmse: F64, cosine: F64, agreement: F64) -> (r: bool)
    ensures
        r == (non_finite_logits == 0 && (F64 { bits: SMOKE_ERROR_LIMIT }).is_at_least(nrmse)
            && cosine.is_at_least(F64 { bits: SMOKE_COSINE_FLOOR }) && agreement.is_at_least(
            F64 { bits: SMOKE_AGREEMENT_FLOOR },
        )),
{
    non_finite_logits == 0 && (F64 { bits: SMOKE_ERROR_LIMIT }).at_least(nrmse) && cosine.at_least(
        F64 { bits: SMOKE_COSINE_FLOOR },
    ) && agreement.at_least(F64 { bits: SMOKE_AGREEMENT_FLOOR })
}

/// Whether a speed-up is worth having.
pub fn passes_performance(speedup: F64) -> (r: bool)
    ensures
        r == speedup.is_above(F64 { bits: SPEEDUP_FLOOR }),
{
    speedup.above(F64 { bits: SPEEDUP_FLOOR })
}

/// Whether the quantised run of a pair comes first: in every second pair, so that neither
/// run is favoured by its place.
pub fn fp8_runs_first(pair: usize) -> (r: bool)
    ensures
        r == (pair % 2 == 1),
{
    pair % 2 == 1
}

/// Of two pairs in a row, each run comes first in one.
pub proof fn pairs_are_balanced(pair: int)
    requires
        pair >= 0,
    ensures
        (pair % 2 == 1) != ((pair + 1) % 2 == 1),
{
}

/// A measured prompt length of a prefill benchmark.
#[derive(Clone, Copy, Debug, PartialEq, Eq, Structural)]
pub struct PrefillTiming {
    pub prompt_tokens: usize,
    pub wall_p95_ms: F64,
}

pub open spec fn is_interactive(point: PrefillTiming) -> bool {
    (F64 { bits: INTERACTIVE_PREFILL_MS }).is_above(point.wall_p95_ms)
}

/// The largest prompt among the first `upto` that is prefilled fast enough; zero if none is.
pub open spec fn interactive_limit(points: Seq<PrefillTiming>, upto: int) -> int
    decreases upto,
{
    if upto <= 0 {
        0
    } else {
        let before = interactive_limit(points, upto - 1);
        if is_interactive(points[upto - 1]) {
            crate::num::max_int(before, points[upto - 1].prompt_tokens as int)
        } else {
            before
        }
    }
}

/// The largest prompt that is prefilled fast enough for interactive use.
pub fn interactive_prompt_limit(points: &Vec<PrefillTiming>) -> (r: usize)
    ensures
        r == interactive_limit(points@, points@.len() as int),
{
    let mut limit: usize = 0;
    let mut index: usize = 0;
    while index < points.len()
        invariant
            index <= points@.len(),
            limit == interactive_limit(points@, index as int),
        decreases points@.len() - index,
    {
        if (F64 { bits: INTERACTIVE_PREFILL_MS }).above(points[index].wall_p95_ms) {
            limit = crate::num::max_usize(limit, points[index].prompt_tokens);
        }
        index = index + 1;
    }
    limit
}

/// Every prompt length that was measured fast enough is within the interactive limit.
pub proof fn interactive_limit_covers(points: Seq<PrefillTiming>, upto: int, index: int)
    requires
        0 <= index < upto <= points.len(),
        is_interactive(points[index]),
    ensures
        points[index].prompt_tokens <= interactive_limit(points, upto),
    decreases upto,
{
    if index < upto - 1 {
        interactive_limit_covers(points, upto - 1, index);
    }
}

/// Checks a paired generation benchmark.
pub fn check_paired_generation(completion_tokens: usize, measured_pairs: usize) -> (r: Result<
    (),
    BenchmarkError,
>)
    ensures
        r == (if completion_tokens < 2 {
            Err::<(), BenchmarkError>(BenchmarkError::TooFewTokens)
        } else if measured_pairs == 0 {
            Err::<(), BenchmarkError>(BenchmarkError::NoMeasuredSteps)
        } else {
            Ok::<(), BenchmarkError>(())
        }),
{
    if completion_tokens < 2 {
        Err(BenchmarkError::TooFewTokens)
    } else if measured_pairs == 0 {
        Err(BenchmarkError::NoMeasuredSteps)
    } else {
        Ok(())
    }
}

/// Checks that both generations of a pair ran to their end.
pub fn check_pair(reference: usize, candidate: usize, requested: usize) -> (r: Result<
    (),
    BenchmarkError,
>)
    ensures
        r == (if reference == requested && candidate == requested {
            Ok::<(), BenchmarkError>(())
        } else {
            Err::<(), BenchmarkError>(
                BenchmarkError::StoppedEarly { reference, candidate, requested },
            )
        }),
{
    if reference == requested && candidate == requested {
        Ok(())
    } else {
        Err(BenchmarkError::StoppedEarly { reference, candidate, requested })
    }
}

/// The text that benchmark prompts repeat.
pub open spec fn prompt_unit() -> Seq<char> {
    "A careful systems benchmark reports workload, hardware, method, and uncertainty. "@
}

/// The request that benchmark prompts end with.
pub open spec fn prompt_suffix() -> Seq<char> {
    "\nWrite the integers from 1 to 1000, separated by commas."@
}

/// The text repeated.
pub open spec fn repeated_text(text: Seq<char>, count: int) -> Seq<char>
    decreases count,
{
    if count <= 0 {
        Seq::empty()
    } else {
        repeated_text(text, count - 1) + text
    }
}

/// A benchmark prompt of this many repetitions.
pub fn benchmark_prompt(repetitions: usize) -> (r: String)
    ensures
        r@ == repeated_text(prompt_unit(), repetitions as int) + prompt_suffix(),
{
    let mut prompt = String::new();
    let mut count: usize = 0;
    while count < repetitions
        invariant
            count <= repetitions,
            prompt@ == repeated_text(prompt_unit(), count as int),
        decreases repetitions - count,
    {
        prompt.append(
            "A careful systems benchmark reports workload, hardware, method, and uncertainty. ",
        );
        count = count + 1;
    }
    prompt.append("\nWrite the integers from 1 to 1000, separated by commas.");
    prompt
}

/// What to do with a benchmark prompt.
#[derive(Clone, Copy, Debug, PartialEq, Eq, Structural)]
pub enum PromptVerdict {
    LongEnough,
    /// Repeat the text more often.
    TooShort,
}

/// Judges a benchmark prompt by its tokens.
pub fn judge_prompt(
    prompt_tokens: usize,
    target_tokens: usize,
    completion_tokens: usize,
    limit: usize,
) -> (r: Result<PromptVerdict, BenchmarkError>)
    ensures
        r == (if target_tokens == 0 {
            Err::<PromptVerdict, BenchmarkError>(BenchmarkError::ZeroContext)
        } else if prompt_tokens < target_tokens {
            Ok::<PromptVerdict, BenchmarkError>(PromptVerdict::TooShort)
        } else if prompt_tokens + completion_tokens > usize::MAX {
            Err::<PromptVerdict, BenchmarkError>(BenchmarkError::LengthOverflow)
        } else if prompt_tokens + completion_tokens > limit {
            Err::<PromptVerdict, BenchmarkError>(BenchmarkError::LengthExceedsModel)
        } else {
            Ok::<PromptVerdict, BenchmarkError>(PromptVerdict::LongEnough)
        }),
{
    if target_tokens == 0 {
        return Err(BenchmarkError::ZeroContext);
    }
    if prompt_tokens < target_tokens {
        return Ok(PromptVerdict::TooShort);
    }
    match prompt_tokens.checked_add(completion_tokens) {
        Some(total) => if total <= limit {
            Ok(PromptVerdict::LongEnough)
        } else {
            Err(BenchmarkError::LengthExceedsModel)
        },
        None => Err(BenchmarkError::LengthOverflow),
    }
}

/// The next number of repetitions: the estimate from the missing share, but at least one
/// more than before.
pub fn next_repetitions(repetitions: usize, estimate: usize) -> (r: usize)
    ensures
        r == crate::num::max_int(
            estimate as int,
            crate::num::min_int(repetitions + 1, usize::MAX as int),
        ),
        repetitions < usize::MAX ==> r > repetitions,
{
    crate::num::max_usize(estimate, repetitions.saturating_add(1))
}

/// Where in ascending order a percentile of `count` samples lies: the nearest place, of two
/// equally near ones the higher.
pub open spec fn percentile_place(count: int, percent: int) -> int {
    ((count - 1) * percent * 2 + 100) / 200
}

/// The total-order keys of samples.
pub open spec fn sample_keys(samples: Seq<F64>) -> Seq<i64> {
    Seq::new(samples.len(), |i: int| samples[i].total_order() as i64)
}

/// `value` is the percentile of the samples: it is at the percentile's place when they are
/// put in ascending order.
pub open spec fn is_percentile(samples: Seq<F64>, percent: int, value: F64) -> bool {
    exists|ranking: Seq<usize>|
        {
            let n = samples.len() as int;
            &&& #[trigger] is_ranking(sample_keys(samples), ranking)
            &&& value == samples[ranking[n - 1 - percentile_place(n, percent)] as int]
        }
}

/// A percentile of samples; none of no samples.
pub fn percentile(samples: &Vec<F64>, percent: usize) -> (r: Option<F64>)
    requires
        percent <= 100,
        samples@.len() * 200 + 100 <= usize::MAX,
    ensures
        match r {
            Some(value) => samples@.len() > 0 && is_percentile(samples@, percent as int, value),
            None => samples@.len() == 0,
        },
{
    if samples.len() == 0 {
        return None;
    }
    let mut keys: Vec<i64> = Vec::new();
    let mut index: usize = 0;
    while index < samples.len()
        invariant
            index <= samples@.len(),
            keys@ == sample_keys(samples@.take(index as int)),
        decreases samples@.len() - index,
    {
        keys.push(samples[index].total_order_key());
        index = index + 1;
        assert(keys@ =~= sample_keys(samples@.take(index as int)));
    }
    assert(samples@.take(index as int) =~= samples@);
    let ranking = rank_descending(&keys);
    let count: usize = samples.len();
    proof {
        let steps = count - 1;
        let p = percent as int;
        assert(0 <= steps * p <= steps * 100) by (nonlinear_arith)
            requires
                0 <= steps,
                0 <= p <= 100,
        ;
    }
    let place: usize = ((count - 1) * percent * 2 + 100) / 200;
    assert(place == percentile_place(count as int, percent as int));
    assert(place <= count - 1);
    assert(is_ranking(sample_keys(samples@), ranking@));
    Some(samples[ranking[count - 1 - place]])
}

/// Pool counters of one generation.
#[derive(Clone, Copy, Debug, PartialEq, Eq, Structural)]
pub struct PoolCounters {
    pub bf16_hits: u64,
    pub bf16_misses: u64,
    pub fp8_hits: u64,
    pub fp8_misses: u64,
    pub decode_bf16_hits: u64,
    pub decode_bf16_misses: u64,
    pub decode_fp8_hits: u64,
    pub decode_fp8_misses: u64,
}

/// Pool counters as unbounded sums.
pub struct PoolTotals {
    pub bf16_hits: int,
    pub bf16_misses: int,
    pub fp8_hits: int,
    pub fp8_misses: int,
    pub decode_bf16_hits: int,
    pub decode_bf16_misses: int,
    pub decode_fp8_hits: int,
    pub decode_fp8_misses: int,
}

/// The sums over the first `upto` generations.
pub open spec fn pool_totals(samples: Seq<PoolCounters>, upto: int) -> PoolTotals
    decreases upto,
{
    if upto <= 0 {
        PoolTotals {
            bf16_hits: 0,
            bf16_misses: 0,
            fp8_hits: 0,
            fp8_misses: 0,
            decode_bf16_hits: 0,
            decode_bf16_misses: 0,
            decode_fp8_hits: 0,
            decode_fp8_misses: 0,
        }
    } else {
        let before = pool_totals(samples, upto - 1);
        let last = samples[upto - 1];
        PoolTotals {
            bf16_hits: before.bf16_hits + last.bf16_hits,
            bf16_misses: before.bf16_misses + last.bf16_misses,
            fp8_hits: before.fp8_hits + last.fp8_hits,
            fp8_misses: before.fp8_misses + last.fp8_misses,
            decode_bf16_hits: before.decode_bf16_hits + last.decode_bf16_hits,
            decode_bf16_misses: before.decode_bf16_misses + last.decode_bf16_misses,
            decode_fp8_hits: before.decode_fp8_hits + last.decode_fp8_hits,
            decode_fp8_misses: before.decode_fp8_misses + last.decode_fp8_misses,
        }
    }
}

impl PoolTotals {
    /// Every sum fits its counter.
    pub open spec fn fits(self) -> bool {
        &&& self.bf16_hits <= u64::MAX
        &&& self.bf16_misses <= u64::MAX
        &&& self.fp8_hits <= u64::MAX
        &&& self.fp8_misses <= u64::MAX
        &&& self.decode_bf16_hits <= u64::MAX
        &&& self.decode_bf16_misses <= u64::MAX
        &&& self.decode_fp8_hits <= u64::MAX
        &&& self.decode_fp8_misses <= u64::MAX
    }

    /// The sums as counters.
    pub open spec fn counters(self) -> PoolCounters {
        PoolCounters {
            bf16_hits: self.bf16_hits as u64,
            bf16_misses: self.bf16_misses as u64,
            fp8_hits: self.fp8_hits as u64,
            fp8_misses: self.fp8_misses as u64,
            decode_bf16_hits: self.decode_bf16_hits as u64,
            decode_bf16_misses: self.decode_bf16_misses as u64,
            decode_fp8_hits: self.decode_fp8_hits as u64,
            decode_fp8_misses: self.decode_fp8_misses as u64,
        }
    }
}

proof fn lemma_totals_grow(samples: Seq<PoolCounters>, a: int, b: int)
    requires
        0 <= a <= b <= samples.len(),
    ensures
        ({
            let x = pool_totals(samples, a);
            let y = pool_totals(samples, b);
            &&& 0 <= x.bf16_hits <= y.bf16_hits
            &&& 0 <= x.bf16_misses <= y.bf16_misses
            &&& 0 <= x.fp8_hits <= y.fp8_hits
            &&& 0 <= x.fp8_misses <= y.fp8_misses
            &&& 0 <= x.decode_bf16_hits <= y.decode_bf16_hits
            &&& 0 <= x.decode_bf16_misses <= y.decode_bf16_misses
            &&& 0 <= x.decode_fp8_hits <= y.decode_fp8_hits
            &&& 0 <= x.decode_fp8_misses <= y.decode_fp8_misses
        }),
    decreases b,
{
    if a < b {
        lemma_totals_grow(samples, a, b - 1);
    } else if a > 0 {
        lemma_totals_grow(samples, a - 1, a - 1);
    }
}

/// What a summary of generations is made from.
#[derive(Debug)]
pub struct SummaryParts {
    pub counters: PoolCounters,
    /// The mean times between tokens, one per generation.
    pub intervals: Vec<F64>,
}

/// Sums up the pool counters of generations and collects their times between tokens, which
/// every one has to have.
pub fn summarize_generation_metrics(samples: &Vec<PoolCounters>, intervals: &Vec<Option<F64>>) -> (r:
    Result<SummaryParts, BenchmarkError>)
    requires
        samples@.len() == intervals@.len(),
        pool_totals(samples@, samples@.len() as int).fits(),
    ensures
        match r {
            Ok(parts) => {
                &&& samples@.len() > 0
                &&& parts.counters == pool_totals(samples@, samples@.len() as int).counters()
                &&& parts.intervals@.len() == intervals@.len()
                &&& forall|i: int|
                    0 <= i < intervals@.len() ==> intervals@[i] == Some(
                        #[trigger] parts.intervals@[i],
                    )
            },
            Err(BenchmarkError::NoSamples) => samples@.len() == 0,
            Err(e) => e == BenchmarkError::MissingInterval && exists|i: int|
                0 <= i < intervals@.len() && #[trigger] intervals@[i] is None,
        },
{
    if samples.len() == 0 {
        return Err(BenchmarkError::NoSamples);
    }
    let mut collected: Vec<F64> = Vec::new();
    let mut counters = PoolCounters {
        bf16_hits: 0,
        bf16_misses: 0,
        fp8_hits: 0,
        fp8_misses: 0,
        decode_bf16_hits: 0,
        decode_bf16_misses: 0,
        decode_fp8_hits: 0,
        decode_fp8_misses: 0,
    };
    let mut index: usize = 0;
    while index < samples.len()
        invariant
            index <= samples@.len(),
            samples@.len() == intervals@.len(),
            pool_totals(samples@, samples@.len() as int).fits(),
            counters == pool_totals(samples@, index as int).counters(),
            pool_totals(samples@, index as int).fits(),
            collected@.len() == index,
            forall|i: int|
                0 <= i < index ==> intervals@[i] == Some(#[trigger] collected@[i]),
        decreases samples@.len() - index,
    {
        match intervals[index] {
            Some(interval) => {
                collected.push(interval);
            },
            None => {
                assert(intervals@[index as int] is None);
                return Err(BenchmarkError::MissingInterval);
            },
        }
        proof {
            lemma_totals_grow(samples@, index as int, index as int);
            lemma_totals_grow(samples@, index + 1, samples@.len() as int);
        }
        let sample = samples[index];
        counters.bf16_hits = counters.bf16_hits + sample.bf16_hits;
        counters.bf16_misses = counters.bf16_misses + sample.bf16_misses;
        counters.fp8_hits = counters.fp8_hits + sample.fp8_hits;
        counters.fp8_misses = counters.fp8_misses + sample.fp8_misses;
        counters.decode_bf16_hits = counters.decode_bf16_hits + sample.decode_bf16_hits;
        counters.decode_bf16_misses = counters.decode_bf16_misses + sample.decode_bf16_misses;
        counters.decode_fp8_hits = counters.decode_fp8_hits + sample.decode_fp8_hits;
        counters.decode_fp8_misses = counters.decode_fp8_misses + sample.decode_fp8_misses;
        index = index + 1;
    }
    Ok(SummaryParts { counters, intervals: collected })
}

} // verus!
