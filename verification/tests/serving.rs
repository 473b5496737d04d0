//! The serving path: admission, the owner loop, batches and steps.
use lfm25_inference::cache::{reusable_limit, KvPageSize};
use lfm25_inference::engine::admission::{
    survey_load, Admission, AdmissionAction, AdmissionLimits, AdmissionStage, LatencyForecast,
    Refusal, RequestShape, ServingError,
};
use lfm25_inference::engine::batch::{assemble_step_batch, has_prefill_rows, RaggedBatch};
use lfm25_inference::engine::config::{
    check_warmup_pools, count_attention_layers, monotonic_us, plan_warmup, ConfigError,
    ContinuousEngineConfig, EngineConfig, KvGeometry, WarmupError,
};
use lfm25_inference::engine::owner::{
    extends_prefix, kv_arena_bytes, next_unscheduled_prefix, prefix_page_budget,
    record_shared_prefix, retained_pool_bytes, split_prefill_at_reusable_boundary, OwnerAction,
    OwnerEvent, OwnerLoop, OwnerPhase, PrefixProbe, StepError,
};
use lfm25_inference::engine::step::{
    complete_row, complete_step, generated_tokens, mark_scheduled, Emission, FinishReason,
    PoolStats, PoolUse, ResponseState, StepRules,
};
use lfm25_inference::float::{F32, F64};
use lfm25_inference::model::profile::DecodeProfileMode;
use lfm25_inference::scheduler::{
    HardwareCostModel, RequestPhase, RequestSlotId, RequestSlots, RequestState, ScheduledWork,
    SchedulerConfig,
};

fn single(value: f32) -> F32 {
    F32 { bits: value.to_bits() }
}

fn double(value: f64) -> F64 {
    F64 { bits: value.to_bits() }
}

fn request(phase: RequestPhase, prompt: &[u32], prefilled: usize) -> RequestState {
    RequestState {
        phase,
        prompt_len: prompt.len(),
        prefilled,
        reserved_pages: 4,
        tokens: prompt.to_vec(),
    }
}

fn decode(slot: u32) -> ScheduledWork {
    ScheduledWork::Decode { slot: RequestSlotId(slot) }
}

fn prefill(slot: u32, tokens: usize) -> ScheduledWork {
    ScheduledWork::Prefill { slot: RequestSlotId(slot), tokens }
}

const NOTHING_USED: PoolUse = PoolUse { bf16_hits: 0, bf16_misses: 0, fp8_hits: 0, fp8_misses: 0 };

const RULES: StepRules = StepRules { page_size: 16, eos_token_id: 2 };

#[test]
fn prefixes_leave_a_token_to_compute() {
    assert_eq!(reusable_limit(33, 16), 32);
    assert_eq!(reusable_limit(32, 16), 16);
    assert_eq!(reusable_limit(16, 16), 0);
    assert_eq!(reusable_limit(0, 16), 0);
    assert_eq!(reusable_limit(5, 0), 0);
}

#[test]
fn prefills_are_cut_at_the_reusable_boundary() {
    let slots = RequestSlots {
        entries: vec![
            request(RequestPhase::QueuedPrefill, &[7; 40], 0),
            request(RequestPhase::QueuedPrefill, &[7; 40], 32),
            request(RequestPhase::Decoding, &[7; 4], 4),
        ],
    };
    let mut work = vec![prefill(0, 40), prefill(1, 8), decode(2), prefill(0, 20)];
    split_prefill_at_reusable_boundary(&mut work, &slots, 16).unwrap();
    assert_eq!(work, vec![prefill(0, 32), prefill(1, 8), decode(2), prefill(0, 20)]);
    let mut unknown = vec![prefill(9, 4)];
    assert_eq!(
        split_prefill_at_reusable_boundary(&mut unknown, &slots, 16).unwrap_err(),
        StepError::UnknownSlot
    );
}

#[test]
fn waiting_requests_are_probed_for_prefixes() {
    let mut slots = RequestSlots {
        entries: vec![
            request(RequestPhase::Decoding, &[7; 40], 40),
            request(RequestPhase::QueuedPrefill, &[7; 10], 0),
            request(RequestPhase::QueuedPrefill, &[7; 40], 16),
        ],
    };
    let mut states = vec![ResponseState::admitted(40, 4, true); 3];
    let probe = next_unscheduled_prefix(&slots, &states, 16, 0).unwrap();
    assert_eq!(probe, Some(PrefixProbe { index: 2, limit: 32 }));
    assert!(extends_prefix(&slots, 2, 32) && !extends_prefix(&slots, 2, 16));
    record_shared_prefix(&mut slots, 2, 32, 1);
    assert_eq!((slots.entries[2].prefilled, slots.entries[2].reserved_pages), (32, 3));
    assert_eq!(next_unscheduled_prefix(&slots, &states, 16, 0), Ok(None));
    slots.entries[2].prefilled = 0;
    mark_scheduled(&vec![prefill(2, 4)], &mut states);
    assert!(states[2].first_scheduled && !states[1].first_scheduled);
    assert_eq!(next_unscheduled_prefix(&slots, &states, 16, 0), Ok(None));
}

#[test]
fn the_owner_waits_only_when_idle() {
    let mut owner = OwnerLoop::new(4);
    assert_eq!(owner.phase, OwnerPhase::Draining);
    assert_eq!(owner.advance(OwnerEvent::NothingQueued, 4), OwnerAction::WaitForRequest);
    assert_eq!(owner.advance(OwnerEvent::Received, 4), OwnerAction::AdmitAndDrain);
    assert_eq!(owner.advance(OwnerEvent::NothingQueued, 3), OwnerAction::RefreshAndSchedule);
    assert_eq!(owner.advance(OwnerEvent::Scheduled { items: 0 }, 3), OwnerAction::PauseAndDrain);
    assert_eq!(owner.advance(OwnerEvent::NothingQueued, 2), OwnerAction::RefreshAndSchedule);
    assert_eq!(owner.advance(OwnerEvent::Scheduled { items: 2 }, 2), OwnerAction::RunStep);
    assert_eq!(owner.advance(OwnerEvent::StepCompleted, 4), OwnerAction::Drain);
    assert_eq!(owner.advance(OwnerEvent::NothingQueued, 4), OwnerAction::WaitForRequest);
    assert_eq!(owner.advance(OwnerEvent::QueueClosed, 4), OwnerAction::Stop);
    assert_eq!(owner.phase, OwnerPhase::Stopped);
    assert_eq!(owner.counters.engine_steps, 1);
    assert_eq!(owner.counters.maximum_active_requests, 2);
    owner.count_input_tokens(9);
    assert_eq!(owner.counters.model_input_tokens, 9);
}

#[test]
fn step_batches_hold_the_scheduled_tokens() {
    let mut decoding = request(RequestPhase::Decoding, &[5, 6, 7], 3);
    decoding.push_token(8);
    let slots = RequestSlots {
        entries: vec![decoding, request(RequestPhase::QueuedPrefill, &[1, 2, 3, 4], 1)],
    };
    let batch = assemble_step_batch(&vec![decode(0), prefill(1, 2)], &slots).unwrap();
    assert_eq!(batch.token_ids, vec![8, 2, 3]);
    assert_eq!(batch.positions, vec![3, 1, 2]);
    assert_eq!(batch.request_slots, vec![0, 1, 1]);
    assert_eq!(batch.segment_offsets, vec![0, 1, 3]);
    assert_eq!(batch.segment_slots, vec![0, 1]);
    assert_eq!(batch.output_rows, vec![0, 2]);
    // Work behind the end of a prompt is cut off.
    let rest = assemble_step_batch(&vec![prefill(1, 9)], &slots).unwrap();
    assert_eq!(rest.token_ids, vec![2, 3, 4]);
    let mut short = request(RequestPhase::QueuedPrefill, &[1, 2], 0);
    short.prompt_len = 4;
    let truncated = RequestSlots { entries: vec![short] };
    assert_eq!(
        assemble_step_batch(&vec![prefill(0, 4)], &truncated).unwrap_err(),
        StepError::RangeExceedsRequest
    );
    assert_eq!(
        assemble_step_batch(&vec![decode(2)], &slots).unwrap_err(),
        StepError::UnknownSlot
    );
    let mut empty = RaggedBatch::new();
    assert_eq!(empty.push_segment(0, &vec![], 0, 0).unwrap_err(), StepError::IndexOverflow);
}

#[test]
fn rows_advance_their_requests() {
    let mut pending = request(RequestPhase::QueuedPrefill, &[7; 40], 0);
    let mut state = ResponseState::admitted(40, 2, true);
    let used = PoolUse { bf16_hits: 3, bf16_misses: 1, fp8_hits: 0, fp8_misses: 0 };
    let outcome = complete_row(prefill(0, 32), &mut pending, &mut state, 9, RULES, used);
    assert_eq!(outcome.publish, Some(32));
    assert_eq!(outcome.emission, None);
    assert_eq!((pending.prefilled, state.bf16_pool_hits), (32, 3));
    let outcome = complete_row(prefill(0, 100), &mut pending, &mut state, 9, RULES, used);
    assert_eq!(outcome.publish, None);
    assert_eq!(
        outcome.emission,
        Some(Emission { token: 9, kept: true, first: true, finish: None })
    );
    assert_eq!(pending.phase, RequestPhase::Decoding);
    let outcome = complete_row(decode(0), &mut pending, &mut state, 11, RULES, used);
    assert_eq!(
        outcome.emission,
        Some(Emission {
            token: 11,
            kept: true,
            first: false,
            finish: Some(FinishReason::Length)
        })
    );
    assert_eq!(generated_tokens(&pending, &state), vec![9, 11]);
    assert_eq!(state.bf16_pool_misses, 3);
}

#[test]
fn the_end_of_text_finishes_a_request() {
    let mut running = request(RequestPhase::Decoding, &[7; 4], 4);
    let mut state = ResponseState::admitted(4, 8, true);
    let outcome = complete_row(decode(0), &mut running, &mut state, 2, RULES, NOTHING_USED);
    assert_eq!(
        outcome.emission,
        Some(Emission { token: 2, kept: false, first: true, finish: Some(FinishReason::Stop) })
    );
    assert_eq!(running.tokens.len(), 4);
    let mut ignoring = ResponseState::admitted(4, 8, false);
    let outcome = complete_row(decode(0), &mut running, &mut ignoring, 2, RULES, NOTHING_USED);
    assert_eq!(outcome.emission.unwrap().finish, None);
    assert_eq!(ResponseState::vacant().maximum_new_tokens, 0);
}

#[test]
fn steps_apply_every_row() {
    let mut slots = RequestSlots {
        entries: vec![
            request(RequestPhase::Decoding, &[5, 6], 2),
            request(RequestPhase::QueuedPrefill, &[1, 2, 3], 0),
        ],
    };
    let mut states =
        vec![ResponseState::admitted(2, 1, true), ResponseState::admitted(3, 4, true)];
    let work = vec![decode(0), prefill(1, 3)];
    let outcomes =
        complete_step(&work, &mut slots, &mut states, &[30, 31], RULES, NOTHING_USED).unwrap();
    assert_eq!(outcomes.len(), 2);
    assert_eq!(outcomes[0].emission.unwrap().finish, Some(FinishReason::Length));
    assert_eq!(slots.entries[1].tokens, vec![1, 2, 3, 31]);
    let mut owner = OwnerLoop::new(2);
    owner.count_rows(&outcomes);
    assert_eq!(owner.counters.generated_tokens, 2);
    assert_eq!(owner.counters.completed_requests, 1);
}

#[test]
fn answers_hold_what_was_generated_until_they_are_complete() {
    for (stop, wanted, stream, kept, reason) in [
        (true, 3, vec![8, 9, 10, 11], vec![8, 9, 10], FinishReason::Length),
        (true, 3, vec![8, 2, 10, 11], vec![8], FinishReason::Stop),
        (false, 3, vec![8, 2, 10, 11], vec![8, 2, 10], FinishReason::Length),
        (true, 0, vec![8, 9], vec![8], FinishReason::Length),
    ] {
        let mut slots =
            RequestSlots { entries: vec![request(RequestPhase::QueuedPrefill, &[5, 6], 0)] };
        let mut states = vec![ResponseState::admitted(2, wanted, stop)];
        let mut finish = None;
        let mut work = vec![prefill(0, 2)];
        assert!(has_prefill_rows(&work));
        for token in stream {
            let rows =
                complete_step(&work, &mut slots, &mut states, &[token], RULES, NOTHING_USED)
                    .unwrap();
            finish = rows[0].emission.unwrap().finish;
            if finish.is_some() {
                break;
            }
            assert_eq!(slots.entries[0].tokens.len() - 2, states[0].generated_tokens);
            assert!(states[0].generated_tokens < wanted);
            work = vec![decode(0)];
            assert!(!has_prefill_rows(&work));
        }
        assert_eq!(finish, Some(reason));
        assert_eq!(generated_tokens(&slots.entries[0], &states[0]), kept);
        assert_eq!(slots.entries[0].tokens[..2], [5, 6]);
    }
    assert!(has_prefill_rows(&vec![decode(0), prefill(1, 1)]));
    assert!(!has_prefill_rows(&vec![]));
}

fn shape(prompt_tokens: usize, maximum_new_tokens: usize) -> RequestShape {
    RequestShape {
        prompt_tokens,
        maximum_new_tokens,
        temperature: single(0.0),
        repetition_penalty: single(1.0),
    }
}

const LIMITS: AdmissionLimits = AdmissionLimits {
    maximum_sequence_tokens: 100,
    max_position_embeddings: 128,
    interactive_prompt_limit: 64,
};

fn forecast(decode_ms: f64, first_token_ms: f64) -> LatencyForecast {
    LatencyForecast {
        decode_ms: double(decode_ms),
        step_budget_ms: double(40.0),
        decode_us: double(decode_ms * 1000.0),
        tpot_slo_us: double(50_000.0),
        first_token_ms: double(first_token_ms),
        ttft_slo_ms: double(400.0),
    }
}

#[test]
fn admitted_requests_get_pages_for_what_they_do_not_share() {
    let (mut admission, action) =
        Admission::begin(shape(50, 20), LIMITS, KvPageSize::P16).unwrap();
    assert_eq!(action, AdmissionAction::LookUpPrefix { limit: 48 });
    let action = admission.prefix_found(Some(32));
    assert_eq!(action, AdmissionAction::Forecast { remaining_prompt: 18 });
    assert_eq!(admission.forecast(forecast(10.0, 100.0)), AdmissionAction::AcquireSlot);
    let slot = RequestSlotId(3);
    assert_eq!(
        admission.slot_acquired(Some(slot)),
        AdmissionAction::ReservePages { slot, pages: 3 }
    );
    assert_eq!(
        admission.reservation_done(true),
        AdmissionAction::InitializeAndAttach { slot, capacity: 70, pages: 3, tokens: 32 }
    );
    assert_eq!(
        admission.attach_done(true),
        AdmissionAction::Install { slot, prefilled: 32 }
    );
    assert_eq!(admission.stage, AdmissionStage::Ended);
}

#[test]
fn refused_requests_give_everything_back() {
    let refuse = |reason, release_pages, release_slot| AdmissionAction::Refuse {
        reason,
        release_pages,
        release_slot,
    };
    let begin = |shape| Admission::begin(shape, LIMITS, KvPageSize::P16).unwrap();
    let warm = RequestShape { temperature: single(0.5), ..shape(4, 4) };
    assert_eq!(begin(warm).1, refuse(Refusal::NotGreedy, false, false));
    assert_eq!(begin(shape(50, 51)).1, refuse(Refusal::SequenceCapacity, false, false));
    assert_eq!(
        begin(shape(65, 5)).1,
        refuse(Refusal::PromptTooLong { tokens: 65, limit: 64 }, false, false)
    );
    assert!(Admission::begin(shape(usize::MAX, 1), LIMITS, KvPageSize::P16).is_err());
    let mut slow = begin(shape(20, 20)).0;
    slow.prefix_found(None);
    assert_eq!(
        slow.forecast(forecast(40.0, 1.0)),
        refuse(Refusal::DecodeLatency, false, false)
    );
    let mut late = begin(shape(20, 20)).0;
    late.prefix_found(None);
    assert_eq!(
        late.forecast(forecast(1.0, 400.0)),
        refuse(Refusal::FirstTokenLatency, false, false)
    );
    let mut full = begin(shape(20, 20)).0;
    full.prefix_found(None);
    full.forecast(forecast(1.0, 1.0));
    assert_eq!(full.slot_acquired(None), refuse(Refusal::SlotsExhausted, false, false));
    let mut poor = begin(shape(20, 20)).0;
    poor.prefix_found(Some(16));
    poor.forecast(forecast(1.0, 1.0));
    poor.slot_acquired(Some(RequestSlotId(0)));
    let mut unattached = poor;
    assert_eq!(poor.reservation_done(false), refuse(Refusal::PagesUnavailable, false, true));
    unattached.reservation_done(true);
    assert_eq!(unattached.attach_done(false), refuse(Refusal::PrefixUnavailable, true, true));
}

#[test]
fn requests_without_a_prefix_are_installed_directly() {
    let mut admission = Admission::begin(shape(20, 20), LIMITS, KvPageSize::P16).unwrap().0;
    admission.prefix_found(None);
    admission.forecast(forecast(1.0, 1.0));
    let slot = RequestSlotId(1);
    admission.slot_acquired(Some(slot));
    assert_eq!(
        admission.reservation_done(true),
        AdmissionAction::InitializeAndInstall { slot, capacity: 40, pages: 3 }
    );
}

#[test]
fn refusals_are_answered() {
    let answer = Refusal::PromptTooLong { tokens: 65, limit: 64 }.answer("", "");
    assert_eq!(answer.status, "503 Service Unavailable");
    assert_eq!(
        answer.message,
        "prompt has 65 tokens; interactive limit for this hardware profile is 64 \
         and no long-context queue is configured"
    );
    assert_eq!(Refusal::NotGreedy.answer("", "").status, "400 Bad Request");
    assert_eq!(
        Refusal::SequenceCapacity.answer("", "").message,
        "request exceeds configured sequence capacity"
    );
    assert_eq!(
        Refusal::FirstTokenLatency.answer("410.250", "400.000").message,
        "admission rejected: predicted TTFT 410.250 ms exceeds 400.000 ms SLO"
    );
    assert_eq!(
        Refusal::DecodeLatency.answer("61.000", "").message,
        "admission rejected: predicted decode p95 61.000 ms exceeds latency budget"
    );
    assert_eq!(Refusal::PagesUnavailable.answer("full", "").message, "KV admission rejected: full");
    assert_eq!(
        Refusal::PrefixUnavailable.answer("gone", "").message,
        "prefix cache attach failed: gone"
    );
    assert_eq!(
        Refusal::SlotsExhausted.answer("", "").message,
        "engine request slots exhausted"
    );
    assert_eq!(ServingError::bad_request("x".to_string()).status, "400 Bad Request");
    assert_eq!(ServingError::overloaded("y".to_string()).message, "y");
}

#[test]
fn the_load_counts_decodes_and_waiting_prompts() {
    let slots = RequestSlots {
        entries: vec![
            request(RequestPhase::Decoding, &[1; 30], 30),
            request(RequestPhase::Idle, &[], 0),
            request(RequestPhase::QueuedPrefill, &[1; 12], 4),
        ],
    };
    let load = survey_load(&slots, 20);
    // The new request counts as one.
    assert_eq!(load.decode_count, 2);
    assert_eq!(load.maximum_context, 30);
    assert_eq!(load.queued_prompt_tokens, vec![8]);
}

fn cost_model(schema_version: u32) -> HardwareCostModel {
    HardwareCostModel {
        schema_version,
        gpu_name: "gpu".to_string(),
        page_size: 16,
        interactive_prompt_limit: 4096,
        ttft_slo_ms: double(400.0),
    }
}

fn scheduler() -> SchedulerConfig {
    SchedulerConfig {
        maximum_prefill_tokens: 512,
        step_budget_ms: double(40.0),
        ttft_slo_us: 400_000,
        tpot_slo_us: 50_000,
        fp8_decode: false,
    }
}

const GEOMETRY: KvGeometry = KvGeometry {
    attention_layers: 6,
    key_value_heads: 8,
    head_dim: 64,
    max_position_embeddings: 1024,
};

#[test]
fn configurations_come_from_the_hardware_profile() {
    let config = ContinuousEngineConfig::from_cost_model(cost_model(1), scheduler()).unwrap();
    assert_eq!(config.maximum_request_slots, 64);
    assert_eq!(config.maximum_sequence_tokens, 32_768);
    assert_eq!(config.maximum_batch_tokens, 576);
    assert_eq!((config.physical_kv_pages, config.queue_capacity), (1, 128));
    assert!(config.check_capacity().is_ok());
    assert_eq!(
        ContinuousEngineConfig::from_cost_model(cost_model(2), scheduler()).unwrap_err(),
        ConfigError::UnsupportedSchema { version: 2 }
    );
    let narrow = ContinuousEngineConfig { maximum_batch_tokens: 575, ..config };
    assert_eq!(narrow.check_capacity(), Err(ConfigError::BatchTooSmall));
    let none = ContinuousEngineConfig { maximum_request_slots: 0, ..narrow };
    assert_eq!(none.check_capacity(), Err(ConfigError::NoRequestSlots));
}

#[test]
fn pages_are_fitted_to_free_memory() {
    let fit = |gpu: &str, page_size, free: usize, total: usize| {
        ContinuousEngineConfig::continuous_config(
            cost_model(1),
            scheduler(),
            gpu,
            page_size,
            GEOMETRY,
            free,
            total,
        )
    };
    let gibibyte = 1usize << 30;
    // A page takes 6 * 2 * 8 * 16 * 64 * 2 bytes; 64 requests use at most 64 pages each.
    let roomy = fit("gpu", KvPageSize::P16, 8 * gibibyte, 10 * gibibyte).unwrap();
    assert_eq!(roomy.maximum_sequence_tokens, 1024);
    assert_eq!(roomy.physical_kv_pages, 64 * 64);
    let tight = fit("gpu", KvPageSize::P16, gibibyte, 4 * gibibyte).unwrap();
    let left = gibibyte - (gibibyte / 2) - 167_772_160;
    assert_eq!(tight.physical_kv_pages, left / 196_608);
    let empty = fit("gpu", KvPageSize::P16, 0, 4 * gibibyte).unwrap();
    assert_eq!(empty.physical_kv_pages, 1);
    assert_eq!(fit("other", KvPageSize::P16, 0, 0).unwrap_err(), ConfigError::WrongGpu);
    assert_eq!(
        fit("gpu", KvPageSize::P32, 0, 0).unwrap_err(),
        ConfigError::WrongPageSize { profile: 16, engine: 32 }
    );
}

#[test]
fn engine_defaults() {
    let config = EngineConfig::default();
    assert_eq!(config.kv_page_size, KvPageSize::P16);
    assert_eq!(config.decode_profile, DecodeProfileMode::Off);
    assert_eq!((config.decode_profile_warmup_steps, config.decode_profile_steps), (4, 128));
    let kinds = vec!["conv".to_string(), "full_attention".to_string(), "conv".to_string()];
    assert_eq!(count_attention_layers(&kinds), 1);
}

#[test]
fn warm_up_fills_every_slot() {
    let plan = plan_warmup(3, 16, 4, 1).unwrap();
    assert_eq!((plan.decode_slots, plan.prefill_tokens), (2, 4));
    assert_eq!(plan.batch.token_ids, vec![1, 1, 1, 42, 42, 42]);
    assert_eq!(plan.batch.request_slots, vec![0, 1, 2, 2, 2, 2]);
    assert_eq!(plan.batch.output_rows, vec![0, 1, 5]);
    assert_eq!(plan_warmup(3, 5, 4, 1).unwrap_err(), WarmupError::InvalidShape);
    assert_eq!(plan_warmup(0, 5, 0, 1).unwrap_err(), WarmupError::InvalidShape);
    assert_eq!(plan_warmup(3, 5, usize::MAX, 1).unwrap_err(), WarmupError::TokenCountOverflow);
    let pool = |dropped_elements| PoolStats {
        hits: 0,
        misses: 0,
        available_elements: 0,
        dropped_elements,
    };
    assert_eq!(check_warmup_pools(pool(3), pool(3), pool(1), pool(1)), Ok(()));
    assert_eq!(
        check_warmup_pools(pool(3), pool(5), pool(1), pool(2)),
        Err(WarmupError::Bf16Dropped { elements: 2 })
    );
    assert_eq!(
        check_warmup_pools(pool(3), pool(3), pool(1), pool(2)),
        Err(WarmupError::Fp8Dropped { elements: 1 })
    );
}

#[test]
fn memory_figures() {
    assert_eq!(prefix_page_budget(100), 25);
    assert_eq!(prefix_page_budget(3), 1);
    assert_eq!(kv_arena_bytes(10, 6, 8, 16, 64), 10 * 196_608);
    assert_eq!(kv_arena_bytes(usize::MAX, 6, 8, 16, 64), usize::MAX);
    let pool = |available_elements| PoolStats {
        hits: 5,
        misses: 2,
        available_elements,
        dropped_elements: 0,
    };
    assert_eq!(retained_pool_bytes(pool(10), pool(7)), 27);
    let finished = PoolStats { hits: 9, misses: 2, ..pool(0) };
    assert_eq!(
        PoolUse::between(pool(0), finished, finished, pool(0)),
        PoolUse { bf16_hits: 4, bf16_misses: 0, fp8_hits: 0, fp8_misses: 0 }
    );
    assert_eq!(monotonic_us(17), 17);
    assert_eq!(monotonic_us(u128::MAX), u64::MAX);
}
