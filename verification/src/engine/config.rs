//! Engine and serving configuration.
use vstd::prelude::*;

use crate::cache::KvPageSize;
use crate::engine::batch::RaggedBatch;
#[allow(unused_imports)]
use crate::engine::batch::RaggedView;
use crate::engine::step::PoolStats;
use crate::model::profile::DecodeProfileMode;
use crate::num::{div_ceil, max_usize, min_usize};
use crate::scheduler::{HardwareCostModel, SchedulerConfig};
use crate::text::text_eq;

verus! {

/// Startup policies of an engine.
#[derive(Clone, Copy, Debug, PartialEq, Eq, Structural)]
pub struct EngineConfig {
    pub kv_page_size: KvPageSize,
    pub decode_profile: DecodeProfileMode,
    pub decode_profile_warmup_steps: usize,
    pub decode_profile_steps: usize,
}

impl Default for EngineConfig {
    fn default() -> (r: Self)
        ensures
            r == (EngineConfig {
                kv_page_size: KvPageSize::P16,
                decode_profile: DecodeProfileMode::Off,
                decode_profile_warmup_steps: 4,
                decode_profile_steps: 128,
            }),
    {
        EngineConfig {
            kv_page_size: KvPageSize::P16,
            decode_profile: DecodeProfileMode::Off,
            decode_profile_warmup_steps: 4,
            decode_profile_steps: 128,
        }
    }
}

/// Sizes and limits of a continuous serving engine.
#[derive(Clone, Debug)]
pub struct ContinuousEngineConfig {
    pub maximum_request_slots: usize,
    pub maximum_sequence_tokens: usize,
    pub maximum_batch_tokens: usize,
    pub physical_kv_pages: usize,
    pub queue_capacity: usize,
    pub scheduler: SchedulerConfig,
    pub cost_model: HardwareCostModel,
    pub trace_steps: bool,
}

/// Why a serving configuration cannot be made or used.
#[derive(Clone, Copy, Debug, PartialEq, Eq, Structural)]
pub enum ConfigError {
    /// The hardware profile was measured on another device.
    WrongGpu,
    /// The hardware profile was measured with another page size.
    WrongPageSize { profile: usize, engine: usize },
    UnsupportedSchema { version: u32 },
    PageBytesOverflow,
    PageCountOverflow,
    NoRequestSlots,
    /// The batch cannot hold every decoding request and a prefill chunk.
    BatchTooSmall,
}

/// The part of the model's shape that sizes the key-value cache.
#[derive(Clone, Copy, Debug, PartialEq, Eq, Structural)]
pub struct KvGeometry {
    pub attention_layers: usize,
    pub key_value_heads: usize,
    pub head_dim: usize,
    pub max_position_embeddings: usize,
}

impl KvGeometry {
    /// Bytes of one page over all layers: keys and values, two bytes per element.
    pub open spec fn page_bytes(self, page_size: int) -> int {
        self.attention_layers * 2 * self.key_value_heads * page_size * self.head_dim * 2
    }
}

/// Memory that serving leaves untouched: a tenth of the device, and at least half a
/// gibibyte.
pub open spec fn safety_bytes(total_bytes: int) -> int {
    crate::num::max_int(total_bytes / 10, 0x2000_0000)
}

/// Memory set aside for the temporary pools: 64 Mi bf16 elements and 32 MiB more.
pub const TEMPORARY_POOL_BYTES: usize = 167_772_160;

/// Memory left for key-value pages.
pub open spec fn kv_budget(free_bytes: int, total_bytes: int) -> int {
    crate::num::max_int(free_bytes - safety_bytes(total_bytes) - TEMPORARY_POOL_BYTES, 0)
}

/// The number of elements of `kinds` that name full attention.
pub open spec fn attention_count(kinds: Seq<String>) -> int
    decreases kinds.len(),
{
    if kinds.len() == 0 {
        0
    } else {
        attention_count(kinds.drop_last()) + if kinds.last()@ == "full_attention"@ {
            1int
        } else {
            0int
        }
    }
}

/// Counts the layers that keep keys and values; all others are convolutions.
pub fn count_attention_layers(layer_types: &Vec<String>) -> (r: usize)
    ensures
        r == attention_count(layer_types@),
        r <= layer_types@.len(),
{
    let mut count: usize = 0;
    let mut index: usize = 0;
    while index < layer_types.len()
        invariant
            index <= layer_types@.len(),
            count <= index,
            count == attention_count(layer_types@.take(index as int)),
        decreases layer_types@.len() - index,
    {
        proof {
            let upto = layer_types@.take(index + 1);
            assert(upto.drop_last() =~= layer_types@.take(index as int));
            assert(upto.last() == layer_types@[index as int]);
        }
        if text_eq(layer_types[index].as_str(), "full_attention") {
            count = count + 1;
        }
        index = index + 1;
    }
    assert(layer_types@.take(index as int) =~= layer_types@);
    count
}

impl ContinuousEngineConfig {
    /// The configuration that a hardware profile asks for, before it is fitted to a
    /// device.
    pub fn from_cost_model(cost_model: HardwareCostModel, scheduler: SchedulerConfig) -> (r: Result<
        Self,
        ConfigError,
    >)
        ensures
            match r {
                Ok(config) => {
                    &&& cost_model.schema_version == 1
                    &&& config.maximum_request_slots == 64
                    &&& config.maximum_sequence_tokens == 32_768
                    &&& config.maximum_batch_tokens == 64 + 512
                    &&& config.physical_kv_pages == 1
                    &&& config.queue_capacity == 128
                    &&& config.scheduler == scheduler
                    &&& config.cost_model == cost_model
                    &&& !config.trace_steps
                },
                Err(e) => cost_model.schema_version != 1 && e == (ConfigError::UnsupportedSchema {
                    version: cost_model.schema_version,
                }),
            },
    {
        if cost_model.schema_version != 1 {
            return Err(
                ConfigError::UnsupportedSchema { version: cost_model.schema_version },
            );
        }
        Ok(
            ContinuousEngineConfig {
                maximum_request_slots: 64,
                maximum_sequence_tokens: 32_768,
                maximum_batch_tokens: 64 + 512,
                physical_kv_pages: 1,
                queue_capacity: 128,
                scheduler,
                cost_model,
                trace_steps: false,
            },
        )
    }

    /// Fits a hardware profile to the device and model it is to serve.
    pub fn continuous_config(
        cost_model: HardwareCostModel,
        scheduler: SchedulerConfig,
        actual_gpu: &str,
        page_size: KvPageSize,
        geometry: KvGeometry,
        free_bytes: usize,
        total_bytes: usize,
    ) -> (r: Result<Self, ConfigError>)
        requires
            geometry.attention_layers > 0,
            geometry.key_value_heads > 0,
            geometry.head_dim > 0,
        ensures
            ({
                let sequence = crate::num::min_int(
                    32_768,
                    geometry.max_position_embeddings as int,
                );
                let useful = 64 * crate::num::ceil_div(sequence, page_size.tokens());
                let page_bytes = geometry.page_bytes(page_size.tokens());
                match r {
                    Ok(config) => {
                        &&& actual_gpu@ == cost_model.gpu_name@
                        &&& cost_model.page_size == page_size.tokens()
                        &&& cost_model.schema_version == 1
                        &&& page_bytes <= usize::MAX
                        &&& useful <= usize::MAX
                        &&& config.maximum_request_slots == 64
                        &&& config.maximum_sequence_tokens == sequence
                        &&& config.maximum_batch_tokens == 64 + 512
                        &&& config.physical_kv_pages == crate::num::max_int(
                            crate::num::min_int(
                                kv_budget(free_bytes as int, total_bytes as int) / page_bytes,
                                useful,
                            ),
                            1,
                        )
                        &&& config.queue_capacity == 128
                        &&& config.scheduler == scheduler
                        &&& config.cost_model == cost_model
                        &&& !config.trace_steps
                    },
                    Err(e) => e == (if actual_gpu@ != cost_model.gpu_name@ {
                        ConfigError::WrongGpu
                    } else if cost_model.page_size != page_size.tokens() {
                        ConfigError::WrongPageSize {
                            profile: cost_model.page_size,
                            engine: page_size.tokens() as usize,
                        }
                    } else if cost_model.schema_version != 1 {
                        ConfigError::UnsupportedSchema { version: cost_model.schema_version }
                    } else if page_bytes > usize::MAX {
                        ConfigError::PageBytesOverflow
                    } else {
                        ConfigError::PageCountOverflow
                    }) && (e == ConfigError::PageCountOverflow ==> useful > usize::MAX),
                }
            }),
    {
        if !text_eq(actual_gpu, cost_model.gpu_name.as_str()) {
            return Err(ConfigError::WrongGpu);
        }
        let page_tokens: usize = page_size.value();
        if cost_model.page_size != page_tokens {
            return Err(
                ConfigError::WrongPageSize { profile: cost_model.page_size, engine: page_tokens },
            );
        }
        let mut config = match ContinuousEngineConfig::from_cost_model(cost_model, scheduler) {
            Ok(config) => config,
            Err(e) => {
                return Err(e);
            },
        };
        config.maximum_sequence_tokens =
        min_usize(config.maximum_sequence_tokens, geometry.max_position_embeddings);
        let reserve: usize = max_usize(total_bytes / 10, 512 * 1024 * 1024);
        let available: usize = free_bytes.saturating_sub(reserve).saturating_sub(
            TEMPORARY_POOL_BYTES,
        );
        let page_bytes: usize = match page_byte_size(geometry, page_tokens) {
            Some(bytes) => bytes,
            None => {
                return Err(ConfigError::PageBytesOverflow);
            },
        };
        let pages_per_request: usize = div_ceil(config.maximum_sequence_tokens, page_tokens);
        let useful: usize = match config.maximum_request_slots.checked_mul(pages_per_request) {
            Some(pages) => pages,
            None => {
                return Err(ConfigError::PageCountOverflow);
            },
        };
        proof {
            assert(page_bytes > 0) by {
                lemma_page_bytes_positive(geometry, page_tokens as int);
            }
        }
        config.physical_kv_pages = max_usize(min_usize(available / page_bytes, useful), 1);
        Ok(config)
    }

    /// Whether the engine can run with this configuration at all.
    pub fn check_capacity(&self) -> (r: Result<(), ConfigError>)
        ensures
            match r {
                Ok(()) => self.maximum_request_slots > 0 && self.maximum_request_slots
                    + self.scheduler.maximum_prefill_tokens <= self.maximum_batch_tokens,
                Err(e) => e == (if self.maximum_request_slots == 0 {
                    ConfigError::NoRequestSlots
                } else {
                    ConfigError::BatchTooSmall
                }) && (self.maximum_request_slots == 0 || self.maximum_request_slots
                    + self.scheduler.maximum_prefill_tokens > self.maximum_batch_tokens),
            },
    {
        if self.maximum_request_slots == 0 {
            return Err(ConfigError::NoRequestSlots);
        }
        match self.maximum_request_slots.checked_add(self.scheduler.maximum_prefill_tokens) {
            Some(required) => if required <= self.maximum_batch_tokens {
                Ok(())
            } else {
                Err(ConfigError::BatchTooSmall)
            },
            None => Err(ConfigError::BatchTooSmall),
        }
    }
}

fn page_byte_size(geometry: KvGeometry, page_tokens: usize) -> (r: Option<usize>)
    requires
        geometry.attention_layers > 0,
        geometry.key_value_heads > 0,
        geometry.head_dim > 0,
        page_tokens > 0,
    ensures
        match r {
            Some(bytes) => bytes == geometry.page_bytes(page_tokens as int),
            None => geometry.page_bytes(page_tokens as int) > usize::MAX,
        },
{
    let ghost a = geometry.attention_layers as int;
    let ghost k = geometry.key_value_heads as int;
    let ghost p = page_tokens as int;
    let ghost d = geometry.head_dim as int;
    proof {
        lemma_products_grow(a, k, p, d);
    }
    let planes: usize = match geometry.attention_layers.checked_mul(2) {
        Some(value) => value,
        None => {
            return None;
        },
    };
    let heads: usize = match planes.checked_mul(geometry.key_value_heads) {
        Some(value) => value,
        None => {
            return None;
        },
    };
    let rows: usize = match heads.checked_mul(page_tokens) {
        Some(value) => value,
        None => {
            return None;
        },
    };
    let elements: usize = match rows.checked_mul(geometry.head_dim) {
        Some(value) => value,
        None => {
            return None;
        },
    };
    elements.checked_mul(2)
}

proof fn lemma_products_grow(a: int, k: int, p: int, d: int)
    by (nonlinear_arith)
    requires
        a > 0,
        k > 0,
        p > 0,
        d > 0,
    ensures
        a * 2 <= a * 2 * k,
        a * 2 * k <= a * 2 * k * p,
        a * 2 * k * p <= a * 2 * k * p * d,
        a * 2 * k * p * d <= a * 2 * k * p * d * 2,
        a * 2 * k * p * d > 0,
{
    assert(a * 2 * k > 0);
    assert(a * 2 * k * p > 0);
    assert(a * 2 * k * p * d > 0);
}

proof fn lemma_page_bytes_positive(geometry: KvGeometry, page_tokens: int)
    requires
        geometry.attention_layers > 0,
        geometry.key_value_heads > 0,
        geometry.head_dim > 0,
        page_tokens > 0,
    ensures
        geometry.page_bytes(page_tokens) > 0,
{
    lemma_products_grow(
        geometry.attention_layers as int,
        geometry.key_value_heads as int,
        page_tokens,
        geometry.head_dim as int,
    );
}

/// The pages of a fitted configuration fit the memory it was fitted to, unless not even
/// one page does.
pub proof fn fitted_pages_fit_memory(
    config: ContinuousEngineConfig,
    geometry: KvGeometry,
    page_size: KvPageSize,
    useful: int,
    free_bytes: usize,
    total_bytes: usize,
)
    requires
        geometry.attention_layers > 0,
        geometry.key_value_heads > 0,
        geometry.head_dim > 0,
        geometry.page_bytes(page_size.tokens()) <= kv_budget(free_bytes as int, total_bytes as int),
        config.physical_kv_pages == crate::num::max_int(
            crate::num::min_int(
                kv_budget(free_bytes as int, total_bytes as int) / geometry.page_bytes(
                    page_size.tokens(),
                ),
                useful,
            ),
            1,
        ),
    ensures
        config.physical_kv_pages * geometry.page_bytes(page_size.tokens()) <= kv_budget(
            free_bytes as int,
            total_bytes as int,
        ) <= free_bytes,
{
    let bytes = geometry.page_bytes(page_size.tokens());
    let budget = kv_budget(free_bytes as int, total_bytes as int);
    let pages = config.physical_kv_pages as int;
    lemma_page_bytes_positive(geometry, page_size.tokens());
    assert(pages * bytes <= budget) by (nonlinear_arith)
        requires
            bytes > 0,
            bytes <= budget,
            pages <= budget / bytes || pages == 1,
    ;
}

/// Why the serving path cannot be warmed up.
#[derive(Clone, Copy, Debug, PartialEq, Eq, Structural)]
pub enum WarmupError {
    TokenCountOverflow,
    /// No token at all, or more than one batch holds.
    InvalidShape,
    IndexOverflow,
    /// The bf16 pool dropped this many elements.
    Bf16Dropped { elements: u64 },
    /// The fp8 pool dropped this many elements.
    Fp8Dropped { elements: u64 },
}

/// The batch that exercises every kernel of the serving path once: one decode row for all
/// slots but the last, and a full prefill chunk for the last.
#[derive(Debug)]
pub struct WarmupPlan {
    pub decode_slots: usize,
    pub prefill_tokens: usize,
    pub batch: RaggedBatch,
}

/// A prompt of `count` tokens that starts with the beginning-of-sequence token.
pub open spec fn warmup_prompt(bos_token_id: u32, count: int) -> Seq<u32> {
    Seq::new(
        count as nat,
        |i: int|
            if i == 0 {
                bos_token_id
            } else {
                42
            },
    )
}

pub open spec fn warmup_decodes(bos_token_id: u32, slots: int) -> RaggedView
    decreases slots,
{
    if slots <= 0 {
        RaggedView::empty()
    } else {
        warmup_decodes(bos_token_id, slots - 1).with_segment(
            (slots - 1) as u32,
            0,
            seq![bos_token_id],
        )
    }
}

pub open spec fn warmup_batch(bos_token_id: u32, decode_slots: int, prefill_tokens: int) -> RaggedView {
    warmup_decodes(bos_token_id, decode_slots).with_segment(
        decode_slots as u32,
        0,
        warmup_prompt(bos_token_id, prefill_tokens),
    )
}

/// Plans the warm-up of a serving path.
pub fn plan_warmup(
    maximum_request_slots: usize,
    maximum_batch_tokens: usize,
    prefill_tokens: usize,
    bos_token_id: u32,
) -> (r: Result<WarmupPlan, WarmupError>)
    ensures
        ({
            let decode_slots = crate::num::max_int(maximum_request_slots - 1, 0);
            let total = decode_slots + prefill_tokens;
            match r {
                Ok(plan) => {
                    &&& 0 < total <= maximum_batch_tokens
                    &&& total <= u32::MAX
                    &&& plan.decode_slots == decode_slots
                    &&& plan.prefill_tokens == prefill_tokens
                    &&& plan.batch@ == warmup_batch(
                        bos_token_id,
                        decode_slots,
                        prefill_tokens as int,
                    )
                },
                Err(e) => e == (if total > usize::MAX {
                    WarmupError::TokenCountOverflow
                } else if total == 0 || total > maximum_batch_tokens {
                    WarmupError::InvalidShape
                } else {
                    WarmupError::IndexOverflow
                }) && (e == WarmupError::IndexOverflow ==> total > u32::MAX),
            }
        }),
{
    let decode_slots: usize = maximum_request_slots.saturating_sub(1);
    let total: usize = match decode_slots.checked_add(prefill_tokens) {
        Some(total) => total,
        None => {
            return Err(WarmupError::TokenCountOverflow);
        },
    };
    if total == 0 || total > maximum_batch_tokens {
        return Err(WarmupError::InvalidShape);
    }
    if total > u32::MAX as usize {
        return Err(WarmupError::IndexOverflow);
    }
    let mut batch = RaggedBatch::new();
    let mut single: Vec<u32> = Vec::new();
    single.push(bos_token_id);
    let mut slot: usize = 0;
    while slot < decode_slots
        invariant
            slot <= decode_slots <= u32::MAX,
            single@ == seq![bos_token_id],
            batch@ == warmup_decodes(bos_token_id, slot as int),
            batch@.token_ids.len() == slot,
        decreases decode_slots - slot,
    {
        assert(single@.subrange(0, 1) =~= seq![bos_token_id]);
        match batch.push_segment(slot as u32, &single, 0, 1) {
            Ok(()) => {},
            Err(_) => {
                return Err(WarmupError::IndexOverflow);
            },
        }
        slot = slot + 1;
    }
    let prompt = crate::engine::workload::probe_prompt(bos_token_id, prefill_tokens);
    assert(prompt@.subrange(0, prefill_tokens as int) =~= prompt@);
    match batch.push_segment(decode_slots as u32, &prompt, 0, prefill_tokens) {
        Ok(()) => {},
        Err(_) => {
            return Err(WarmupError::IndexOverflow);
        },
    }
    Ok(WarmupPlan { decode_slots, prefill_tokens, batch })
}

/// Whether the pools held everything that the warm-up allocated.
pub fn check_warmup_pools(
    bf16_started: PoolStats,
    bf16_finished: PoolStats,
    fp8_started: PoolStats,
    fp8_finished: PoolStats,
) -> (r: Result<(), WarmupError>)
    ensures
        ({
            let bf16 = bf16_finished.dropped_elements.saturating_sub(
                bf16_started.dropped_elements,
            );
            let fp8 = fp8_finished.dropped_elements.saturating_sub(fp8_started.dropped_elements);
            r == (if bf16 != 0 {
                Err::<(), WarmupError>(WarmupError::Bf16Dropped { elements: bf16 })
            } else if fp8 != 0 {
                Err::<(), WarmupError>(WarmupError::Fp8Dropped { elements: fp8 })
            } else {
                Ok::<(), WarmupError>(())
            })
        }),
{
    let bf16: u64 = bf16_finished.dropped_elements.saturating_sub(bf16_started.dropped_elements);
    if bf16 != 0 {
        return Err(WarmupError::Bf16Dropped { elements: bf16 });
    }
    let fp8: u64 = fp8_finished.dropped_elements.saturating_sub(fp8_started.dropped_elements);
    if fp8 != 0 {
        return Err(WarmupError::Fp8Dropped { elements: fp8 });
    }
    Ok(())
}

/// Microseconds since the process's first reading of its clock, capped to 64 bits.
pub fn monotonic_us(elapsed_micros: u128) -> (r: u64)
    ensures
        r == (if elapsed_micros <= u64::MAX {
            elapsed_micros as u64
        } else {
            u64::MAX
        }),
{
    if elapsed_micros <= u64::MAX as u128 {
        elapsed_micros as u64
    } else {
        u64::MAX
    }
}

} // verus!
