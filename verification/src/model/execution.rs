//! How decode steps are run, and what is measured of them.
use vstd::prelude::*;

use crate::engine::batch::RaggedBatch;
use crate::engine::verdicts::is_nearest_double;
use crate::float::{F32, F64};
use crate::model::decode_executor::{
    context_of, fp8_linear_shape, longest_context, DecodeDispatch, DecodeExecutor,
    DecodeGraphBucket, ExecutorError, GraphQuery, Int8DownError, Int8DownMode, Int8DownState,
    LinearShape,
};
use crate::model::fp8_analysis::{
    Fp8GemmErrorReport, GemmSiteErrorReport, LocalPrecisionRecommendation,
};
use crate::model::profile::{
    measured_regions, region_order, DecodeProfileMode, ModelProfileRecorder, ProfileAggregate,
    ProfileError, ProfileParts, ProfileRegion,
};
use crate::model::quantization::{
    expected_decode_saving_us, identity_scale, Fp8PrecisionPolicy, Fp8SitePolicy, PrecisionClass,
    ScalarScale, ScaleStrategy, SiteScales, TensorwideE4m3ScaleCandidates,
};
use crate::model::weights::{Lfm2Model, Lfm2Weights, OperatorWeights};
use crate::text::{occurs, occurs_at};

verus! {

/// The buffers of an executor hold what a step writes for one token: the widest output is
/// gate and up together or the three parts of a convolution's input, and an fp8 product
/// reads a feed-forward row or a hidden row.
pub proof fn buffers_hold_every_output(
    tokens: usize,
    hidden: usize,
    intermediate: usize,
    heads: usize,
    head_dim: usize,
    vocab: usize,
    split: bool,
    graphs: bool,
    r: Result<DecodeExecutor, ExecutorError>,
)
    requires
        call_ensures(
            DecodeExecutor::new,
            (tokens, hidden, intermediate, heads, head_dim, vocab, split, graphs),
            r,
        ),
        heads * head_dim <= usize::MAX,
        intermediate * 2 <= usize::MAX,
        hidden * 3 <= usize::MAX,
    ensures
        r is Ok <==> tokens > 0,
        r is Err ==> r->Err_0 == ExecutorError::NoTokenCapacity,
        r is Ok ==> {
            let made = r->Ok_0;
            &&& made.maximum_tokens == tokens
            &&& made.widths.hidden == hidden
            &&& made.widths.key_value == heads * head_dim
            &&& made.widths.wide >= 2 * intermediate
            &&& made.widths.wide >= 3 * hidden
            &&& made.widths.wide == 2 * intermediate || made.widths.wide == 3 * hidden
            &&& made.widths.activated == intermediate
            &&& made.widths.logits == vocab
            &&& made.widths.fp8_input >= intermediate
            &&& made.widths.fp8_input >= hidden
            &&& made.widths.fp8_input == intermediate || made.widths.fp8_input == hidden
            &&& made.splitk_attention_enabled == split
            &&& made.graphs_enabled == graphs
            &&& !made.unsplit_captured
            &&& !made.split8_captured
        },
{
    let key_value: int = heads * head_dim;
    assert(key_value >= 0) by (nonlinear_arith)
        requires
            key_value == heads * head_dim,
            heads >= 0,
            head_dim >= 0,
    ;
}

/// A step runs from a graph only if graphs and split attention are on, it is one token of
/// a decoding request on pages of sixteen, its context is neither short nor long, the fused
/// kernel is not the faster one, and the context is split in one or in eight.
pub proof fn graphs_are_for_lone_tokens(
    executor: DecodeExecutor,
    query: GraphQuery,
    r: Option<DecodeGraphBucket>,
)
    requires
        call_ensures(DecodeExecutor::cuda_graph_bucket, (&executor, query), r),
    ensures
        r is Some <==> {
            &&& executor.graphs_enabled
            &&& executor.splitk_attention_enabled
            &&& query.tokens == 1
            &&& query.page_size == 16
            &&& 128 <= query.context_tokens < 4096
            &&& !query.one_kernel
            &&& !query.prefill_rows
            &&& (query.splits == 1 || query.splits == 8)
        },
        r == Some(DecodeGraphBucket::Unsplit) ==> query.splits == 1,
        r == Some(DecodeGraphBucket::Split8) ==> query.splits == 8,
{
}

/// A step outside the buckets runs directly; one inside is captured the first time and
/// replayed from then on, each bucket by itself.
pub proof fn graphs_are_captured_once(
    executor: DecodeExecutor,
    query: GraphQuery,
    bucket: Option<DecodeGraphBucket>,
    r: DecodeDispatch,
)
    requires
        call_ensures(DecodeExecutor::cuda_graph_bucket, (&executor, query), bucket),
        call_ensures(DecodeExecutor::dispatch, (&executor, query), r),
    ensures
        bucket is None <==> r == DecodeDispatch::Direct,
        bucket == Some(DecodeGraphBucket::Unsplit) ==> r == (if executor.unsplit_captured {
            DecodeDispatch::Replay { bucket: DecodeGraphBucket::Unsplit }
        } else {
            DecodeDispatch::Capture { bucket: DecodeGraphBucket::Unsplit }
        }),
        bucket == Some(DecodeGraphBucket::Split8) ==> r == (if executor.split8_captured {
            DecodeDispatch::Replay { bucket: DecodeGraphBucket::Split8 }
        } else {
            DecodeDispatch::Capture { bucket: DecodeGraphBucket::Split8 }
        }),
{
}

/// Keeping a graph marks its bucket and leaves the rest of the executor alone.
pub proof fn kept_graphs_are_marked(executor: &mut DecodeExecutor, bucket: DecodeGraphBucket, r: ())
    requires
        call_ensures(DecodeExecutor::keep_graph, (executor, bucket), r),
    ensures
        final(executor).unsplit_captured == (old(executor).unsplit_captured || bucket
            == DecodeGraphBucket::Unsplit),
        final(executor).split8_captured == (old(executor).split8_captured || bucket
            == DecodeGraphBucket::Split8),
        final(executor).maximum_tokens == old(executor).maximum_tokens,
        final(executor).widths == old(executor).widths,
        final(executor).splitk_attention_enabled == old(executor).splitk_attention_enabled,
        final(executor).graphs_enabled == old(executor).graphs_enabled,
{
}

/// A step fits the buffers if it has a token and no more than they hold. The context is
/// split as suggested where splitting is on, and not at all where it is off.
pub proof fn steps_fit_the_buffers(
    executor: DecodeExecutor,
    tokens: usize,
    suggested: usize,
    fits: Result<(), ExecutorError>,
    splits: usize,
)
    requires
        call_ensures(DecodeExecutor::check_tokens, (&executor, tokens), fits),
        call_ensures(DecodeExecutor::attention_splits, (&executor, suggested), splits),
    ensures
        fits is Ok <==> tokens > 0 && tokens <= executor.maximum_tokens,
        fits is Err ==> fits == Err::<(), ExecutorError>(ExecutorError::TokenCount),
        executor.splitk_attention_enabled ==> splits == suggested,
        !executor.splitk_attention_enabled ==> splits == 1,
{
}

/// An executor takes a batch if every row is a segment of its own whose logits are wanted,
/// and the rows fit.
pub proof fn executors_take_one_token_each(executor: DecodeExecutor, batch: RaggedBatch, r: bool)
    requires
        call_ensures(DecodeExecutor::eligible, (&executor, &batch), r),
    ensures
        r ==> 0 < batch.token_ids@.len() <= executor.maximum_tokens,
        r ==> batch.positions@.len() == batch.token_ids@.len(),
        r ==> batch.request_slots@.len() == batch.token_ids@.len(),
        r ==> batch.segment_slots@.len() == batch.token_ids@.len(),
        r ==> batch.segment_offsets@.len() == batch.token_ids@.len() + 1,
        r ==> batch.output_rows@.len() == batch.token_ids@.len(),
        r ==> forall|i: int|
            0 <= i < batch.token_ids@.len() ==> #[trigger] batch.output_rows@[i] == i,
        r ==> forall|i: int|
            0 <= i <= batch.token_ids@.len() ==> #[trigger] batch.segment_offsets@[i] == i,
        !r ==> {
            ||| batch.token_ids@.len() == 0
            ||| batch.token_ids@.len() > executor.maximum_tokens
            ||| batch.positions@.len() != batch.token_ids@.len()
            ||| batch.request_slots@.len() != batch.token_ids@.len()
            ||| batch.segment_slots@.len() != batch.token_ids@.len()
            ||| batch.segment_offsets@.len() != batch.token_ids@.len() + 1
            ||| batch.output_rows@.len() != batch.token_ids@.len()
            ||| exists|i: int|
                0 <= i < batch.segment_offsets@.len() && #[trigger] batch.segment_offsets@[i] != i
            ||| exists|i: int|
                0 <= i < batch.output_rows@.len() && #[trigger] batch.output_rows@[i] != i
        },
{
    assert(batch@.token_ids == batch.token_ids@);
}

proof fn lemma_context(positions: Seq<u32>, upto: int)
    requires
        0 <= upto <= positions.len(),
    ensures
        forall|i: int| 0 <= i < upto ==> #[trigger] positions[i] < context_of(positions, upto),
        context_of(positions, upto) == 0 || exists|i: int|
            0 <= i < upto && #[trigger] positions[i] + 1 == context_of(positions, upto),
        upto > 0 ==> context_of(positions, upto) > 0,
        context_of(positions, upto) <= 0x1_0000_0000,
    decreases upto,
{
    if upto > 0 {
        lemma_context(positions, upto - 1);
        let before = context_of(positions, upto - 1);
        if before >= positions[upto - 1] + 1 && before > 0 {
            let i = choose|i: int|
                0 <= i < upto - 1 && #[trigger] positions[i] + 1 == context_of(positions, upto - 1);
            assert(positions[i] + 1 == context_of(positions, upto));
        } else {
            assert(positions[upto - 1] + 1 == context_of(positions, upto));
        }
    }
}

/// The longest context reaches beyond every position of the batch, by one at the last; an
/// empty batch has none.
pub proof fn contexts_reach_the_last_position(positions: Vec<u32>, r: usize)
    requires
        call_ensures(longest_context, (&positions,), r),
    ensures
        forall|i: int|
            0 <= i < positions@.len() ==> r == usize::MAX || #[trigger] positions@[i] < r,
        positions@.len() == 0 ==> r == 0,
        r == 0 || r == usize::MAX || exists|i: int|
            0 <= i < positions@.len() && #[trigger] positions@[i] + 1 == r,
        positions@.len() > 0 ==> r > 0,
{
    lemma_context(positions@, positions@.len() as int);
    let context = context_of(positions@, positions@.len() as int);
    if context > 0 {
        let i = choose|i: int| 0 <= i < positions@.len() && #[trigger] positions@[i] + 1 == context;
        assert(positions@[i] + 1 == context);
    }
}

/// A product of rows with a weight has the rows of the one and the outputs of the other, and
/// both agree in their inner width.
pub proof fn products_agree_inside(input: &[usize], weight: &[usize], r: Result<LinearShape, ExecutorError>)
    requires
        call_ensures(fp8_linear_shape, (input, weight), r),
    ensures
        r is Ok ==> {
            &&& input@.len() == 2
            &&& weight@.len() == 2
            &&& r->Ok_0.m == input@[0]
            &&& r->Ok_0.n == weight@[0]
            &&& r->Ok_0.k == input@[1]
            &&& r->Ok_0.k == weight@[1]
            &&& r->Ok_0.m > 0
            &&& r->Ok_0.n > 0
            &&& r->Ok_0.k > 0
        },
        input@.len() == 2 && weight@.len() == 2 && input@[0] > 0 && input@[1] > 0 && weight@[0] > 0
            && input@[1] == weight@[1] ==> r is Ok,
        input@.len() != 2 || weight@.len() != 2 ==> r == Err::<LinearShape, ExecutorError>(
            ExecutorError::NotRankTwo,
        ),
        r == Err::<LinearShape, ExecutorError>(ExecutorError::EmptyLinear) ==> input@[0] == 0
            || input@[1] == 0 || weight@[0] == 0,
        r == Err::<LinearShape, ExecutorError>(ExecutorError::InnerWidth) ==> input@[1]
            != weight@[1],
{
}

/// Int8 tails serve steps of one or two tokens in the layers that they were installed for.
pub proof fn int8_serves_one_or_two_tokens(
    state: Int8DownState,
    layer: usize,
    m: usize,
    r: Option<Int8DownMode>,
)
    requires
        call_ensures(Int8DownState::try_run, (&state, layer, m), r),
    ensures
        r is Some <==> (m == 1 || m == 2) && layer < state.installed@.len()
            && state.installed@[layer as int],
        r is Some ==> r->Some_0 == state.mode,
{
}

/// Int8 tails go to the selected layers that have no fp8 copy. A selection outside the model
/// or with a layer twice is refused, and an empty one installs nothing.
pub proof fn int8_goes_to_the_selected_layers(
    weights: Lfm2Weights,
    selected: Vec<usize>,
    mode: Int8DownMode,
    r: Result<Option<Int8DownState>, Int8DownError>,
    layer: usize,
)
    requires
        call_ensures(Int8DownState::new_with_layers, (&weights, &selected, mode), r),
        layer < weights.layers@.len(),
    ensures
        selected@.len() == 0 ==> r == Ok::<Option<Int8DownState>, Int8DownError>(None),
        r matches Ok(Some(state)) ==> {
            &&& state.mode == mode
            &&& state.installed@.len() == weights.layers@.len()
            &&& state.installed@[layer as int] <==> selected@.contains(layer)
                && weights.layers@[layer as int].down.fp8 is None
            &&& selected@.no_duplicates()
        },
        r is Err ==> r->Err_0 == Int8DownError::LayerOutOfRange || r->Err_0
            == Int8DownError::DuplicateLayer,
        r is Err && r->Err_0 == Int8DownError::DuplicateLayer ==> !selected@.no_duplicates(),
        !selected@.no_duplicates() ==> r is Err,
{
    assert(weights@.layers == weights.layers@);
}

/// In production the first six layers and the eighth have int8 tails, with int8 activations;
/// turned off there are none.
pub proof fn production_mask_is_fixed(
    weights: Lfm2Weights,
    enabled: bool,
    r: Result<Option<Int8DownState>, Int8DownError>,
    layer: usize,
)
    requires
        call_ensures(Int8DownState::new, (&weights, enabled), r),
        layer < weights.layers@.len(),
    ensures
        !enabled ==> r == Ok::<Option<Int8DownState>, Int8DownError>(None),
        enabled && weights.layers@.len() >= 8 ==> {
            &&& r is Ok
            &&& r->Ok_0 is Some
            &&& r->Ok_0->Some_0.mode == Int8DownMode::W8A8
            &&& r->Ok_0->Some_0.installed@.len() == weights.layers@.len()
            &&& r->Ok_0->Some_0.installed@[layer as int] <==> (layer < 6 || layer == 7)
                && weights.layers@[layer as int].down.fp8 is None
        },
        enabled && weights.layers@.len() < 8 ==> r == Err::<
            Option<Int8DownState>,
            Int8DownError,
        >(Int8DownError::LayerOutOfRange),
{
    let mask = crate::model::decode_executor::production_int8_layers();
    assert(weights@.layers == weights.layers@);
    assert(mask[6] == 7);
    assert(mask.no_duplicates());
    if layer < 6 {
        assert(mask[layer as int] == layer);
    }
    assert(mask.contains(layer) <==> layer < 6 || layer == 7) by {
        if mask.contains(layer) {
            let i = choose|i: int| 0 <= i < mask.len() && mask[i] == layer;
            assert(i < 6 ==> mask[i] == i);
        }
    }
}

/// Regions and their groups have the names that reports use; a region counts towards the
/// group of its part of the layer.
pub proof fn regions_are_named(
    region: ProfileRegion,
    name: &'static str,
    group: ProfileAggregate,
    group_name: &'static str,
)
    requires
        call_ensures(ProfileRegion::name, (region,), name),
        call_ensures(ProfileRegion::aggregate, (region,), group),
        call_ensures(ProfileAggregate::name, (group,), group_name),
    ensures
        match region {
            ProfileRegion::Mlp => name@ == "mlp_total"@ && group_name@ == "mlp_total"@,
            ProfileRegion::MlpGateUpGemm => name@ == "mlp_gate_up_gemm"@ && group_name@
                == "mlp_total"@,
            ProfileRegion::MlpSilu => name@ == "mlp_silu"@ && group_name@ == "mlp_total"@,
            ProfileRegion::MlpDownGemm => name@ == "mlp_down_gemm"@ && group_name@ == "mlp_total"@,
            ProfileRegion::Conv => name@ == "conv_total"@ && group_name@ == "conv_total"@,
            ProfileRegion::ConvInProj => name@ == "conv_in_proj"@ && group_name@ == "conv_total"@,
            ProfileRegion::ConvKernel => name@ == "conv_kernel"@ && group_name@ == "conv_total"@,
            ProfileRegion::ConvOutProj => name@ == "conv_out_proj"@ && group_name@ == "conv_total"@,
            ProfileRegion::Attention => name@ == "attention_total"@ && group_name@
                == "attention_total"@,
            ProfileRegion::AttnQkvProj => name@ == "attn_qkv_proj"@ && group_name@
                == "attention_total"@,
            ProfileRegion::AttnPostprocess => name@ == "attn_postprocess"@ && group_name@
                == "attention_total"@,
            ProfileRegion::AttnXqa => name@ == "attn_xqa"@ && group_name@ == "attention_total"@,
            ProfileRegion::AttnOutProj => name@ == "attn_out_proj"@ && group_name@
                == "attention_total"@,
            ProfileRegion::ResidualNorm => name@ == "residual_norm"@ && group_name@
                == "residual_norm"@,
            ProfileRegion::LmHead => name@ == "lm_head"@ && group_name@ == "lm_head"@,
            ProfileRegion::Sampling => name@ == "sampling"@ && group_name@ == "sampling"@,
        },
{
}

/// A recorder exists unless profiling is off, and it has to be asked for a step. It has
/// seen nothing and measured nothing.
pub proof fn recorders_start_empty(
    mode: DecodeProfileMode,
    warmup: usize,
    wanted: usize,
    r: Result<Option<ModelProfileRecorder>, ProfileError>,
    i: int,
)
    requires
        call_ensures(ModelProfileRecorder::new, (mode, warmup, wanted), r),
        0 <= i < 16,
    ensures
        mode == DecodeProfileMode::Off ==> r matches Ok(None),
        mode != DecodeProfileMode::Off && wanted == 0 ==> r == Err::<
            Option<ModelProfileRecorder>,
            ProfileError,
        >(ProfileError::NoStepsRequested),
        mode != DecodeProfileMode::Off && wanted > 0 ==> r is Ok && r->Ok_0 is Some,
        r matches Ok(Some(recorder)) ==> {
            &&& recorder@.mode == mode
            &&& !recorder@.step_open
            &&& recorder@.pending.len() == 0
            &&& recorder@.decode_steps == 0
            &&& recorder@.seen_steps == 0
            &&& recorder@.warmup_steps == warmup
            &&& recorder@.max_profile_steps == wanted
            &&& recorder@.measured.len() == 16
            &&& !recorder@.measured[i]
        },
{
}

/// A step is measured if the warm-up is over and fewer steps than wanted were measured; no
/// step begins inside another, and nothing but that it is open is noted.
pub proof fn steps_are_measured_after_the_warmup(
    recorder: &mut ModelProfileRecorder,
    r: Result<bool, ProfileError>,
)
    requires
        call_ensures(ModelProfileRecorder::start_step, (recorder,), r),
    ensures
        old(recorder)@.step_open <==> r is Err,
        r is Err ==> r == Err::<bool, ProfileError>(ProfileError::StepAlreadyActive),
        r is Err ==> *final(recorder) == *old(recorder),
        r is Ok ==> (r->Ok_0 <==> old(recorder)@.seen_steps >= old(recorder)@.warmup_steps && old(
            recorder,
        )@.decode_steps < old(recorder)@.max_profile_steps),
        r is Ok ==> final(recorder)@.step_open == r->Ok_0,
        final(recorder)@.seen_steps == old(recorder)@.seen_steps,
        final(recorder)@.decode_steps == old(recorder)@.decode_steps,
        final(recorder)@.pending == old(recorder)@.pending,
        final(recorder)@.measured == old(recorder)@.measured,
        final(recorder)@.mode == old(recorder)@.mode,
{
}

/// A region is noted in a measured step, after those before it, and nowhere else.
pub proof fn regions_are_noted_in_order(
    recorder: &mut ModelProfileRecorder,
    region: ProfileRegion,
    r: bool,
)
    requires
        call_ensures(ModelProfileRecorder::region, (recorder, region), r),
    ensures
        r == old(recorder)@.step_open,
        r ==> final(recorder)@.pending == old(recorder)@.pending.push(region),
        !r ==> final(recorder)@ == old(recorder)@,
        final(recorder)@.step_open == old(recorder)@.step_open,
        final(recorder)@.seen_steps == old(recorder)@.seen_steps,
        final(recorder)@.decode_steps == old(recorder)@.decode_steps,
        final(recorder)@.measured == old(recorder)@.measured,
{
}

/// Ending a step hands out its regions and closes it. It counts as seen, and as measured if
/// it was; a region is measured from then on exactly if it was before or is handed out.
pub proof fn ended_steps_are_counted(
    recorder: &mut ModelProfileRecorder,
    r: Vec<ProfileRegion>,
    region: ProfileRegion,
)
    requires
        call_ensures(ModelProfileRecorder::finish_step, (recorder,), r),
        old(recorder)@.measured.len() == 16,
    ensures
        r@ == old(recorder)@.pending,
        !final(recorder)@.step_open,
        final(recorder)@.pending.len() == 0,
        final(recorder)@.seen_steps == old(recorder)@.seen_steps + 1,
        final(recorder)@.decode_steps == old(recorder)@.decode_steps + if old(
            recorder,
        )@.step_open {
            1int
        } else {
            0int
        },
        region_order()[region.rank()] == region,
        final(recorder)@.measured[region.rank()] <==> old(recorder)@.measured[region.rank()]
            || r@.contains(region),
{
    let before = old(recorder)@;
    assert(0 <= region.rank() < 16);
    if r@.contains(region) {
        let p = choose|p: int| 0 <= p < r@.len() && r@[p] == region;
        assert(before.pending[p].rank() == region.rank());
    }
    if exists|p: int|
        0 <= p < before.pending.len() && (#[trigger] before.pending[p]).rank() == region.rank() {
        let p = choose|p: int|
            0 <= p < before.pending.len() && (#[trigger] before.pending[p]).rank()
                == region.rank();
        assert(r@[p] == region);
    }
}

proof fn lemma_measured_regions(measured: Seq<bool>, upto: int, region: ProfileRegion)
    requires
        0 <= upto <= 16,
        measured.len() == 16,
    ensures
        measured_regions(measured, upto).contains(region) <==> region.rank() < upto
            && measured[region.rank()],
    decreases upto,
{
    if upto > 0 {
        lemma_measured_regions(measured, upto - 1, region);
        let before = measured_regions(measured, upto - 1);
        let all = measured_regions(measured, upto);
        assert(region_order()[region.rank()] == region);
        assert(region_order()[upto - 1].rank() == upto - 1);
        if measured[upto - 1] {
            assert(all.last() == region_order()[upto - 1]);
            if before.contains(region) {
                let i = choose|i: int| 0 <= i < before.len() && before[i] == region;
                assert(all[i] == region);
            }
            if all.contains(region) {
                let i = choose|i: int| 0 <= i < all.len() && all[i] == region;
                if i < before.len() {
                    assert(before[i] == region);
                }
            }
        }
    }
}

/// A report lists the measured regions and no others. There is none inside a step, without
/// a measured step, or if nothing was measured.
pub proof fn reports_list_what_was_measured(
    recorder: ModelProfileRecorder,
    r: Result<ProfileParts, ProfileError>,
    region: ProfileRegion,
)
    requires
        call_ensures(ModelProfileRecorder::report, (recorder,), r),
        recorder@.measured.len() == 16,
    ensures
        r is Ok ==> !recorder@.step_open && recorder@.decode_steps > 0,
        r is Ok ==> (r->Ok_0.components@.contains(region) <==> recorder@.measured[region.rank()]),
        recorder@.step_open ==> r == Err::<ProfileParts, ProfileError>(
            ProfileError::StepStillActive,
        ),
        r is Err && !recorder@.step_open ==> r->Err_0 == ProfileError::NothingMeasured || r->Err_0
            == ProfileError::NoStepsMeasured && recorder@.decode_steps == 0,
{
    lemma_measured_regions(recorder@.measured, 16, region);
}

/// A tensor without a positive finite magnitude is not scaled: nothing is clipped and the
/// multipliers are one. Every other tensor needs a scale of its own.
pub proof fn unscaled_tensors_are_multiplied_by_one(amax: F32, r: Option<ScalarScale>)
    requires
        call_ensures(identity_scale, (amax,), r),
    ensures
        r is None <==> 0 < amax.bits < 0x7f80_0000,
        r is Some ==> r->Some_0.clip_amax.bits == 0,
        r is Some ==> r->Some_0.quantize_multiplier.bits == 0x3f80_0000,
        r is Some ==> r->Some_0.dequantize_multiplier.bits == 0x3f80_0000,
{
}

/// A strategy picks the scale of its own clipping magnitude.
pub proof fn strategies_pick_their_scale(
    candidates: TensorwideE4m3ScaleCandidates,
    strategy: ScaleStrategy,
    r: ScalarScale,
)
    requires
        call_ensures(TensorwideE4m3ScaleCandidates::get, (candidates, strategy), r),
    ensures
        strategy == ScaleStrategy::Amax ==> r == candidates.max,
        strategy == ScaleStrategy::P99_99 ==> r == candidates.p99_99,
        strategy == ScaleStrategy::P99_9 ==> r == candidates.p99_9,
{
}

/// An entry of a policy hands out its activation scale for activations and its weight scale
/// for weights, and a duplicate says the same.
pub proof fn entries_keep_their_scales(entry: Fp8SitePolicy, scales: SiteScales, copy: Fp8SitePolicy)
    requires
        call_ensures(Fp8SitePolicy::scales, (&entry,), scales),
        call_ensures(Fp8SitePolicy::duplicate, (&entry,), copy),
    ensures
        scales.activation == entry.activation_scale,
        scales.weight == entry.weight_scale,
        copy.site@ == entry.site@,
        copy.enabled == entry.enabled,
        copy.activation_strategy == entry.activation_strategy,
        copy.weight_strategy == entry.weight_strategy,
        copy.activation_scale == entry.activation_scale,
        copy.weight_scale == entry.weight_scale,
        copy.local_nrmse == entry.local_nrmse,
        copy.local_cosine == entry.local_cosine,
        copy.expected_decode_saving_us == entry.expected_decode_saving_us,
{
    assert(copy@.scales == entry@.scales);
    assert(copy@.site == entry@.site);
    assert(copy@.enabled == entry@.enabled);
    assert(copy@.activation_strategy == entry@.activation_strategy);
    assert(copy@.weight_strategy == entry@.weight_strategy);
    assert(copy@.local_nrmse == entry@.local_nrmse);
    assert(copy@.local_cosine == entry@.local_cosine);
    assert(copy@.expected_decode_saving_us == entry@.expected_decode_saving_us);
}

/// An entry of a policy holds what the selected trial of a report measured.
pub open spec fn is_entry_of(entry: Fp8SitePolicy, report: GemmSiteErrorReport) -> bool {
    let trial = report.trials@[report.selected_trial->Some_0 as int];
    &&& entry.site@ == report.site@
    &&& entry.activation_scale == trial.activation_scale
    &&& entry.weight_scale == trial.weight_scale
    &&& entry.activation_strategy == trial.activation_strategy
    &&& entry.weight_strategy == trial.weight_strategy
    &&& entry.local_nrmse == trial.metrics.nrmse
    &&& entry.local_cosine == trial.metrics.cosine
    &&& entry.enabled <==> report.recommendation == LocalPrecisionRecommendation::Fp8Tensorwide
}

/// A policy made from the local errors says how it came about, decodes only, and holds for
/// every report with a selected trial an entry with that very trial's scales.
pub proof fn local_policies_hold_the_measured_scales(
    report: Fp8GemmErrorReport,
    name: String,
    r: Fp8PrecisionPolicy,
    i: int,
)
    requires
        call_ensures(Fp8PrecisionPolicy::from_local_errors, (&report, name), r),
        0 <= i < report.sites@.len(),
        report.sites@[i].selected_trial is Some,
    ensures
        r.schema_version == 1,
        r.name@ == name@,
        r.source@ == "real_checkpoint_teacher_forced_gemm_error"@,
        r.decode_only,
        r@.sites == crate::model::quantization::local_sites(report.sites@),
        exists|j: int|
            0 <= j < r.sites@.len() && #[trigger] is_entry_of(r.sites@[j], report.sites@[i]),
{
    let trial = report.sites@[i].trials@[report.sites@[i].selected_trial->Some_0 as int];
    crate::model::provenance::policies_hold_the_measured_scales(report.sites@, i);
    let sites = crate::model::quantization::local_sites(report.sites@);
    let place = crate::model::quantization::local_sites(report.sites@.take(i)).len() as int;
    assert(r@.sites == sites);
    assert(r@.sites[place] == r.sites@[place]@);
    assert(r@.sites[place].scales.activation == r.sites@[place].activation_scale);
    assert(r@.sites[place].scales.weight == r.sites@[place].weight_scale);
    assert(r@.sites[place].local_nrmse == r.sites@[place].local_nrmse);
    assert(is_entry_of(r.sites@[place], report.sites@[i]));
}

/// Restricting a policy to a class disables what the class does not cover. Nothing is
/// enabled by it, and no scale or name changes.
pub proof fn classes_only_disable(
    policy: &mut Fp8PrecisionPolicy,
    class: PrecisionClass,
    r: (),
    i: int,
)
    requires
        call_ensures(Fp8PrecisionPolicy::retain_class, (policy, class), r),
        0 <= i < old(policy).sites@.len(),
    ensures
        final(policy).sites@.len() == old(policy).sites@.len(),
        final(policy).sites@[i].site@ == old(policy).sites@[i].site@,
        final(policy).sites@[i].enabled ==> old(policy).sites@[i].enabled,
        class == PrecisionClass::All ==> final(policy).sites@[i].enabled == old(
            policy,
        ).sites@[i].enabled,
        class == PrecisionClass::Mlp ==> (final(policy).sites@[i].enabled <==> old(
            policy,
        ).sites@[i].enabled && occurs(old(policy).sites@[i].site@, ".mlp."@)),
        final(policy).sites@[i].activation_scale == old(policy).sites@[i].activation_scale,
        final(policy).sites@[i].weight_scale == old(policy).sites@[i].weight_scale,
        final(policy).name@ == old(policy).name@,
        final(policy).decode_only == old(policy).decode_only,
{
    assert(final(policy)@.sites.len() == old(policy)@.sites.len());
    assert(final(policy)@.sites[i] == final(policy).sites@[i]@);
    assert(old(policy)@.sites[i] == old(policy).sites@[i]@);
    assert(final(policy)@.sites[i].scales == old(policy)@.sites[i].scales);
    assert(final(policy)@.sites[i].site == old(policy)@.sites[i].site);
    assert(final(policy)@.name == old(policy)@.name);
}

/// A text that ends with a part.
pub open spec fn ends_with(text: Seq<char>, part: Seq<char>) -> bool {
    text.len() >= part.len() && text.subrange(text.len() - part.len(), text.len() as int) == part
}

proof fn lemma_savings_are_nearest()
    ensures
        is_nearest_double(0x4058_b7bd_7e01_ec7d, 3415int * 863, 1863int * 16),
        is_nearest_double(0x4043_e077_394b_2d5f, 1801int * 546, 1546int * 16),
        is_nearest_double(0x4082_6942_ebd1_42ec, 1007int * 141, 241),
        is_nearest_double(0x402d_3333_3333_3333, 1460int * 20, 100int * 20),
        is_nearest_double(0x4011_bae1_47ae_147b, 591int * 18, 100int * 24),
{
    vstd::arithmetic::power2::lemma2_to64_rest();
}

/// The expected savings follow the measured kernel times of all layers together and how
/// much faster fp8 runs: feed-forward products by 1.863 and 1.546 over sixteen layers, the
/// head by 2.41, a fifth of the convolutions over twenty products and 0.18 of the attention
/// over twenty-four. A part that is none of these saves nothing.
pub proof fn savings_follow_the_kernel_times(site: &str, r: F64)
    requires
        call_ensures(expected_decode_saving_us, (site,), r),
    ensures
        ends_with(site@, "mlp.gate_up"@) ==> is_nearest_double(
            r.bits as int,
            3415int * 863,
            1863int * 16,
        ),
        ends_with(site@, "mlp.down"@) ==> is_nearest_double(
            r.bits - 1,
            1801int * 546,
            1546int * 16,
        ),
        site@ == "lm_head"@ ==> is_nearest_double(r.bits as int, 1007int * 141, 241),
        occurs(site@, ".conv."@) && !ends_with(site@, "mlp.gate_up"@) && !ends_with(
            site@,
            "mlp.down"@,
        ) && site@ != "lm_head"@ ==> is_nearest_double(r.bits as int, 1460int * 20, 100int * 20),
        occurs(site@, ".attention."@) && !occurs(site@, ".conv."@) && !ends_with(
            site@,
            "mlp.gate_up"@,
        ) && !ends_with(site@, "mlp.down"@) && site@ != "lm_head"@ ==> is_nearest_double(
            r.bits as int,
            591int * 18,
            100int * 24,
        ),
        !occurs(site@, ".attention."@) && !occurs(site@, ".conv."@) && !ends_with(
            site@,
            "mlp.gate_up"@,
        ) && !ends_with(site@, "mlp.down"@) && site@ != "lm_head"@ ==> r.bits == 0,
{
    reveal_strlit("mlp.gate_up");
    reveal_strlit("mlp.down");
    reveal_strlit("lm_head");
    let gate_up = site@.len() - "mlp.gate_up"@.len();
    let down = site@.len() - "mlp.down"@.len();
    assert(ends_with(site@, "mlp.gate_up"@) == occurs_at(site@, "mlp.gate_up"@, gate_up));
    assert(ends_with(site@, "mlp.down"@) == occurs_at(site@, "mlp.down"@, down));
    if ends_with(site@, "mlp.gate_up"@) {
        assert("mlp.gate_up"@[10] == 'p');
        assert(site@.subrange(gate_up, site@.len() as int)[10] == 'p');
        assert(site@[site@.len() - 1] == "mlp.gate_up"@[10]);
    }
    if ends_with(site@, "mlp.down"@) {
        assert("mlp.down"@[7] == 'n');
        assert(site@.subrange(down, site@.len() as int)[7] == 'n');
        assert(site@[site@.len() - 1] == "mlp.down"@[7]);
    }
    lemma_savings_are_nearest();
}

/// What a recorder says of itself.
pub proof fn recorders_answer_for_themselves(
    recorder: ModelProfileRecorder,
    mode: DecodeProfileMode,
    steps: bool,
    measuring: bool,
)
    requires
        call_ensures(ModelProfileRecorder::mode, (&recorder,), mode),
        call_ensures(ModelProfileRecorder::has_steps, (&recorder,), steps),
        call_ensures(ModelProfileRecorder::is_measuring, (&recorder,), measuring),
    ensures
        mode == recorder@.mode,
        steps <==> recorder@.decode_steps > 0,
        measuring <==> recorder@.step_open,
{
}

/// A class covers the sites of its groups: feed-forward, then the head, then convolutions,
/// then everything.
pub proof fn classes_cover_their_groups(class: PrecisionClass, site: &str, r: bool)
    requires
        call_ensures(PrecisionClass::includes, (class, site), r),
    ensures
        class == PrecisionClass::Mlp ==> (r <==> occurs(site@, ".mlp."@)),
        class == PrecisionClass::MlpLmHead ==> (r <==> occurs(site@, ".mlp."@) || site@
            == "lm_head"@),
        class == PrecisionClass::MlpLmHeadConv ==> (r <==> occurs(site@, ".mlp."@) || site@
            == "lm_head"@ || occurs(site@, ".conv."@)),
        class == PrecisionClass::All ==> r,
{
}

/// Fused norms are switched alone.
pub proof fn fused_norms_are_switched_alone(model: &mut Lfm2Model, enabled: bool, r: ())
    requires
        call_ensures(Lfm2Model::set_fused_rms_fp8_enabled, (model, enabled), r),
    ensures
        final(model).fused_rms_fp8_enabled == enabled,
        final(model).weights == old(model).weights,
        final(model).decode_fp8_enabled == old(model).decode_fp8_enabled,
        final(model).maximum_fp8_batch == old(model).maximum_fp8_batch,
{
}

/// Weights have fp8 copies if the head or a projection of some layer has one.
pub proof fn copies_are_found(weights: Lfm2Weights, r: bool, l: int)
    requires
        call_ensures(Lfm2Weights::has_installed_fp8_weights, (&weights,), r),
        0 <= l < weights.layers@.len(),
    ensures
        weights.embedding.fp8 is Some ==> r,
        weights.layers@[l].gate_up.fp8 is Some ==> r,
        weights.layers@[l].down.fp8 is Some ==> r,
        weights.layers@[l].operator matches OperatorWeights::Conv(conv) ==> (conv.input.fp8 is Some
            || conv.output.fp8 is Some ==> r),
        weights.layers@[l].operator matches OperatorWeights::Attention(attention) ==> (
        attention.query.fp8 is Some || attention.key.fp8 is Some || attention.value.fp8 is Some
            || attention.output.fp8 is Some ==> r),
        weights.embedding.fp8 is None && r ==> exists|k: int|
            0 <= k < weights.layers@.len() && (#[trigger] weights.layers@[k]).fp8_sites() > 0,
{
    assert(weights@.layers == weights.layers@);
    assert(weights@.layers[l] == weights.layers@[l]);
    if weights.embedding.fp8 is None && r {
        let k = choose|k: int|
            0 <= k < weights@.layers.len() && (#[trigger] weights@.layers[k]).has_fp8();
        assert(weights.layers@[k].fp8_sites() > 0);
    }
}

} // verus!
