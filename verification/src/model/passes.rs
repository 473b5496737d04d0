//! What the planners of passes, packed products and samples hand out.
use vstd::prelude::*;

use crate::bf16::Bf16;
use crate::engine::batch::RaggedBatch;
use crate::model::batch_cache::BatchModelCache;
use crate::model::calibration::{
    reservoir_draw, CalibrationCollector, CalibrationError, CalibrationPhase, SamplesView,
};
use crate::model::checkpoint::{
    batch_sizes, check_packed_shape, check_packed_weights, packed_qkv_shapes, serving_batches,
    stored_views, tensor_names, CheckpointError, PackedQkvError, StoredTensor,
};
use crate::model::decode_executor::{
    DecodeDispatch, DecodeExecutor, ExecutorRun, ExecutorRunError, KernelChoice,
};
use crate::model::evaluation::{
    EvaluationError, HiddenCapture, LogitMetricAccumulator, PropagationAccumulator,
};
use crate::model::forward::{
    batch_shape, linear_dispatch, missing_packed_weight, pass_steps, plan_pass, readback_name,
    AttentionKernel, BatchShape, CapturePoint, ConvKernel, HeadRows, Instruments, LayerKind,
    LayerMismatch, LinearRoute, Op, Pass, QkvProjection, Step,
};
use crate::model::fp8_analysis::{
    conclude_site, Fp8GemmErrorReport, GemmScaleTrial, GemmSiteErrorReport,
    LocalPrecisionRecommendation,
};
use crate::model::inventory::taken_names_were_there;
use crate::model::pass_order::kernel_is_fed;
use crate::model::profile::DecodeProfileMode;
use crate::model::weights::{
    GemmShape, LayerWeights, Lfm2Model, Lfm2Weights, LinearWeight, OperatorWeights, Projection,
    SiteCountMismatch, WeightSite,
};
use crate::text::decimal_text;

verus! {

/// A product runs in fp8 exactly if fp8 is on and the weight has a copy; inputs that are
/// quantised already are not quantised again.
pub proof fn products_run_in_fp8_if_they_can(
    use_fp8: bool,
    weight: LinearWeight,
    prequantized: bool,
    r: LinearRoute,
)
    requires
        call_ensures(linear_dispatch, (use_fp8, &weight, prequantized), r),
    ensures
        r == LinearRoute::Bf16 <==> !(use_fp8 && weight.fp8 is Some),
        r == LinearRoute::Fp8Prequantized <==> use_fp8 && weight.fp8 is Some && prequantized,
        r == LinearRoute::Fp8 <==> use_fp8 && weight.fp8 is Some && !prequantized,
{
}

/// The pass over one sequence: a prefill reads no cache, everything else does, and fp8 is for
/// one token behind others.
pub proof fn sequences_get_their_pass(
    model: Lfm2Model,
    start: usize,
    tokens: usize,
    one_kernel: bool,
    instruments: Instruments,
    r: Pass,
)
    requires
        call_ensures(
            Lfm2Model::sequence_pass,
            (&model, start, tokens, one_kernel, instruments),
            r,
        ),
    ensures
        kernel_is_fed(r),
        r.attention.kernel is Prefill <==> start == 0 && tokens > 1,
        r.attention.kernel is FusedPaged <==> !(start == 0 && tokens > 1) && one_kernel,
        r.attention.kernel is PagedFast <==> !(start == 0 && tokens > 1) && !one_kernel,
        r.attention.projection == QkvProjection::Separate,
        r.use_fp8 <==> model.decode_fp8_enabled && start > 0 && tokens == 1,
        r.fuse_norms <==> model.fused_rms_fp8_enabled && !instruments.calibration
            && !instruments.capture,
        !r.fuse_activation,
        r.conv == ConvKernel::Single,
        r.head == HeadRows::Last,
        !r.argmax,
        r.instruments == instruments,
{
}

/// The pass over drafted tokens gives logits for all of them and keeps what rolling back
/// needs.
pub proof fn drafts_get_their_pass(model: Lfm2Model, start: usize, tokens: usize, r: Pass)
    requires
        call_ensures(Lfm2Model::speculative_pass, (&model, start, tokens), r),
    ensures
        kernel_is_fed(r),
        r.head == HeadRows::All,
        r.conv == ConvKernel::WithHistory,
        r.attention.kernel is PagedFast,
        r.attention.projection == QkvProjection::Separate,
        r.use_fp8 <==> model.decode_fp8_enabled && start > 0 && tokens <= model.maximum_fp8_batch,
        r.fuse_norms == model.fused_rms_fp8_enabled,
        !r.fuse_activation,
        !r.argmax,
        r.instruments.profile == DecodeProfileMode::Off,
        !r.instruments.calibration,
        !r.instruments.capture,
{
}

/// The pass over a batch suits its rows, with packed projections where it decodes in bf16
/// outside the fused kernel.
pub proof fn batches_get_their_pass(model: Lfm2Model, shape: BatchShape, r: Pass, packed: Pass)
    requires
        call_ensures(Lfm2Model::batch_pass, (&model, shape), r),
        call_ensures(Lfm2Model::packed_pass, (&model, shape), packed),
    ensures
        kernel_is_fed(r),
        r.attention.kernel is FusedRaggedPaged <==> shape.decode_only && shape.one_kernel,
        r.attention.kernel is RaggedFast <==> shape.decode_only && !shape.one_kernel,
        r.attention.kernel is Prefill <==> !shape.decode_only && shape.contiguous_prefill,
        r.attention.kernel is SegmentedPrefill <==> !shape.decode_only && !shape.contiguous_prefill
            && shape.segmented_prefill && shape.flash_prefill,
        r.attention.kernel is SegmentedPrefill ==> r.attention.kernel->longest
            == shape.longest_segment,
        r.attention.projection == QkvProjection::Separate,
        r.use_fp8 <==> model.decode_fp8_enabled && !shape.prefill_rows && shape.tokens
            <= model.maximum_fp8_batch,
        !r.fuse_norms,
        !r.fuse_activation,
        r.conv == ConvKernel::Segmented,
        r.head == HeadRows::Gathered,
        !r.argmax,
        packed.attention.projection == QkvProjection::Packed <==> shape.decode_only
            && !shape.one_kernel && !r.use_fp8,
        kernel_is_fed(packed),
        packed.attention.kernel == r.attention.kernel,
        packed.use_fp8 == r.use_fp8,
        packed.head == r.head,
        packed.conv == r.conv,
        packed.argmax == r.argmax,
        packed.fuse_norms == r.fuse_norms,
        packed.fuse_activation == r.fuse_activation,
{
}

/// The pass of the decode executor picks a token for every row.
pub proof fn executors_get_their_pass(
    model: Lfm2Model,
    prefill_rows: bool,
    one_kernel: bool,
    splits: usize,
    r: Pass,
)
    requires
        call_ensures(Lfm2Model::executor_pass, (&model, prefill_rows, one_kernel, splits), r),
    ensures
        kernel_is_fed(r),
        r.attention.kernel is FusedRaggedPaged <==> one_kernel,
        r.attention.kernel is RaggedSplit <==> !one_kernel && splits > 1,
        r.attention.kernel is RaggedSplit ==> r.attention.kernel == (AttentionKernel::RaggedSplit {
            splits,
        }),
        r.attention.kernel is RaggedFast <==> !one_kernel && splits <= 1,
        r.attention.projection == QkvProjection::Separate,
        r.use_fp8 <==> model.decode_fp8_enabled && !prefill_rows,
        !r.fuse_norms,
        r.fuse_activation,
        r.conv == ConvKernel::Segmented,
        r.head == HeadRows::All,
        r.argmax,
{
}

/// A pass is planned if the cache keeps for every layer what its operator needs; otherwise
/// the first layer for which it does not is named.
pub proof fn passes_need_fitting_caches(
    weights: Lfm2Weights,
    kinds: Vec<LayerKind>,
    pass: Pass,
    r: Result<Vec<Step>, LayerMismatch>,
    i: int,
)
    requires
        call_ensures(plan_pass, (&weights, &kinds, &pass), r),
        kinds@.len() == weights.layers@.len(),
        0 <= i < kinds@.len(),
    ensures
        r is Ok ==> (kinds@[i] == LayerKind::Attention <==> weights.layers@[i].operator is Attention),
        r is Ok ==> r->Ok_0@ == pass_steps(weights@, pass),
        r is Err ==> r->Err_0.layer < kinds@.len(),
        r is Err ==> !(kinds@[r->Err_0.layer as int] == LayerKind::Attention <==> weights.layers@[r->Err_0.layer as int].operator is Attention),
        r is Err && i < r->Err_0.layer ==> (kinds@[i] == LayerKind::Attention
            <==> weights.layers@[i].operator is Attention),
{
    assert(weights@.layers == weights.layers@);
}

/// A packed pass misses a weight exactly at its first attention layer without one; other
/// passes miss nothing.
pub proof fn packed_passes_need_packed_weights(
    weights: Lfm2Weights,
    packed: Vec<bool>,
    pass: Pass,
    r: Option<usize>,
)
    requires
        call_ensures(missing_packed_weight, (&weights, &packed, &pass), r),
        packed@.len() == weights.layers@.len(),
    ensures
        pass.attention.projection != QkvProjection::Packed ==> r is None,
        r is Some ==> r->Some_0 < packed@.len() && !packed@[r->Some_0 as int]
            && weights.layers@[r->Some_0 as int].operator is Attention,
{
    assert(weights@.layers == weights.layers@);
}

/// The shape of a batch is what was entered, and it only decodes if every token is a segment.
pub proof fn batches_have_their_shape(
    batch: RaggedBatch,
    cache: BatchModelCache,
    prefill_rows: bool,
    one_kernel: bool,
    flash: bool,
    r: BatchShape,
)
    requires
        call_ensures(batch_shape, (&batch, &cache, prefill_rows, one_kernel, flash), r),
    ensures
        r.tokens == batch.token_ids@.len(),
        r.prefill_rows == prefill_rows,
        r.one_kernel == one_kernel,
        r.flash_prefill == flash,
        r.decode_only <==> batch.segment_slots@.len() == batch.token_ids@.len()
            && batch.segment_offsets@.len() == batch.token_ids@.len() + 1,
        r.contiguous_prefill == cache.is_contiguous_prefill,
        r.segmented_prefill == cache.is_segmented_prefill,
        r.longest_segment == cache.max_segment_tokens,
{
    assert(batch@.token_ids == batch.token_ids@);
}

/// Values that are read back are named by where they stand; steps that compute have no name.
pub proof fn readbacks_are_named(step: Step, r: Option<String>)
    requires
        call_ensures(readback_name, (&step,), r),
    ensures
        step.op is ObserveHeadInput ==> r is Some && r->Some_0@ == "lm_head.input"@,
        step.op == (Op::Capture { point: CapturePoint::FinalRmsNorm }) ==> r is Some && r->Some_0@
            == "final_rms_norm"@,
        step.op == (Op::Capture { point: CapturePoint::PostMixerResidual }) && step.layer is Some
            ==> r is Some && r->Some_0@ == "layers."@ + decimal_text(step.layer->Some_0 as nat)
            + ".post_mixer_residual"@,
        step.op == (Op::Capture { point: CapturePoint::PostFfnResidual }) && step.layer is Some
            ==> r is Some && r->Some_0@ == "layers."@ + decimal_text(step.layer->Some_0 as nat)
            + ".post_ffn_residual"@,
        !(step.op is Observe) && !(step.op is ObserveHeadInput) && !(step.op is Capture) ==> r is None,
        step.op == (Op::Observe { projection: Projection::GateUp }) && step.layer is Some ==> r is Some
            && r->Some_0@ == "layers."@ + decimal_text(step.layer->Some_0 as nat) + ".mlp.gate_up"@
            + ".input"@,
        step.op == (Op::Observe { projection: Projection::Down }) && step.layer is Some ==> r is Some
            && r->Some_0@ == "layers."@ + decimal_text(step.layer->Some_0 as nat) + ".mlp.down"@
            + ".input"@,
{
}

/// A checkpoint is loaded whole: all of its tensors are there, and the embedding has the
/// configured shape. The model starts in bf16, with half a head of rotary frequencies.
pub proof fn models_are_loaded_whole(
    store: Vec<StoredTensor>,
    attention: Vec<bool>,
    vocab: usize,
    hidden: usize,
    head_dim: usize,
    fused: bool,
    r: Result<Lfm2Model, CheckpointError>,
    own: Result<Lfm2Weights, CheckpointError>,
)
    requires
        call_ensures(Lfm2Model::load, (store, &attention, vocab, hidden, head_dim, fused), r),
        call_ensures(Lfm2Weights::from_store, (store, &attention, (head_dim / 2) as usize), own),
    ensures
        store@.len() != 148 ==> r == Err::<Lfm2Model, CheckpointError>(
            CheckpointError::TensorCount { loaded: store@.len() as usize },
        ),
        r is Ok ==> own is Ok && r->Ok_0.weights@ == own->Ok_0@,
        r is Ok ==> r->Ok_0.weights.embedding.rows == vocab,
        r is Ok ==> r->Ok_0.weights.embedding.columns == hidden,
        r is Ok ==> r->Ok_0.weights.inv_freq_elements == head_dim / 2,
        r is Ok ==> !r->Ok_0.decode_fp8_enabled,
        r is Ok ==> r->Ok_0.fused_rms_fp8_enabled == fused,
        r is Ok ==> r->Ok_0.maximum_fp8_batch == 1,
        own is Ok && store@.len() == 148 && own->Ok_0.embedding.rows == vocab
            && own->Ok_0.embedding.columns == hidden ==> r is Ok,
{
    let all = stored_views(store@);
    let names = tensor_names(attention@);
    if r is Ok {
        assert(r->Ok_0.weights@.embedding == r->Ok_0.weights.embedding);
        if own is Err && own->Err_0 is MissingTensor {
            let index = own->Err_0->index as int;
            taken_names_were_there(all, names, names.len() as int, index);
        }
    }
    if own is Ok {
        assert(own->Ok_0@.embedding == own->Ok_0.embedding);
        if r is Err && r->Err_0 is MissingTensor {
            let index = r->Err_0->index as int;
            taken_names_were_there(all, names, names.len() as int, index);
        }
    }
}

/// One packed product is prepared for every serving batch, all of the packed width.
pub proof fn packed_products_follow_the_batches(
    slots: usize,
    tokens: usize,
    hidden: usize,
    r: Result<Vec<GemmShape>, PackedQkvError>,
    batches: Vec<usize>,
    batch: usize,
)
    requires
        call_ensures(packed_qkv_shapes, (slots, tokens, hidden), r),
        call_ensures(serving_batches, (slots, tokens), batches),
    ensures
        r is Ok <==> slots > 0 && tokens > 0,
        slots == 0 ==> r->Err_0 == PackedQkvError::NoRequestSlots,
        slots > 0 && tokens == 0 ==> r->Err_0 == PackedQkvError::NoBatchCapacity,
        r is Ok ==> forall|i: int|
            0 <= i < r->Ok_0@.len() ==> (#[trigger] r->Ok_0@[i]).rows == 3072
                && r->Ok_0@[i].columns == hidden,
        r is Ok ==> (batches@.contains(batch) <==> batch_sizes(r->Ok_0@).contains(batch)),
{
    let s = slots as int;
    let t = tokens as int;
    if r is Ok {
        let sizes = batch_sizes(r->Ok_0@);
        if batches@.contains(batch) {
            let i = choose|i: int| 0 <= i < batches@.len() && batches@[i] == batch;
            assert(crate::model::checkpoint::is_serving_batch(batches@[i] as int, s, t));
        }
        if sizes.contains(batch) {
            let i = choose|i: int| 0 <= i < sizes.len() && sizes[i] == batch;
            assert(crate::model::checkpoint::is_serving_batch(sizes[i] as int, s, t));
        }
    }
}

/// Packed weights serve the model they were made for, all of its layers, in one shape.
pub proof fn packed_weights_belong_to_their_model(
    prepared: Option<(usize, usize)>,
    key: usize,
    layers: usize,
    r: Result<(), PackedQkvError>,
    dims: &[usize],
    hidden: usize,
    layer: usize,
    shaped: Result<(), PackedQkvError>,
)
    requires
        call_ensures(check_packed_weights, (prepared, key, layers), r),
        call_ensures(check_packed_shape, (dims, hidden, layer), shaped),
    ensures
        r is Ok <==> prepared == Some((key, layers)),
        prepared is None ==> r->Err_0 == PackedQkvError::NotPrepared,
        prepared is Some && prepared->Some_0.0 != key ==> r->Err_0 == PackedQkvError::OtherModel,
        prepared is Some && prepared->Some_0.0 == key && prepared->Some_0.1 != layers ==> r->Err_0
            == PackedQkvError::LayerCount,
        shaped is Ok <==> dims@.len() == 2 && dims@[0] == 3072 && dims@[1] == hidden,
        shaped is Err ==> shaped->Err_0 == (PackedQkvError::WeightShape { layer }),
{
    if dims@.len() == 2 && dims@[0] == 3072 && dims@[1] == hidden {
        assert(dims@ =~= seq![3072usize, hidden]);
    }
}

/// A batch runs on the executor exactly if the executor takes it; otherwise the cache is left
/// alone. A replayed step plans nothing anew.
pub proof fn taken_batches_run_on_the_executor(
    model: Lfm2Model,
    cache: &mut BatchModelCache,
    executor: DecodeExecutor,
    batch: RaggedBatch,
    grants: Vec<u32>,
    prefill_rows: bool,
    choice: KernelChoice,
    r: Result<Option<ExecutorRun>, ExecutorRunError>,
    eligible: bool,
)
    requires
        call_ensures(
            Lfm2Model::try_forward_ragged_decode,
            (&model, cache, &executor, &batch, &grants, prefill_rows, choice),
            r,
        ),
        call_ensures(DecodeExecutor::eligible, (&executor, &batch), eligible),
    ensures
        !eligible <==> r matches Ok(None),
        !eligible ==> *final(cache) == *old(cache),
        r matches Ok(Some(run)) ==> (run.dispatch is Replay ==> run.steps@.len() == 0),
        r matches Ok(Some(run)) ==> (prefill_rows ==> run.dispatch == DecodeDispatch::Direct),
        r matches Ok(Some(run)) ==> (batch.token_ids@.len() > 1 ==> run.dispatch
            == DecodeDispatch::Direct),
{
    assert(batch@.token_ids == batch.token_ids@);
}

/// Captures and accumulators start with nothing, and a metric without an observation has
/// nothing to report.
pub proof fn evaluations_start_with_nothing(
    capture: HiddenCapture,
    propagation: PropagationAccumulator,
    metrics: LogitMetricAccumulator,
    r: Result<u64, EvaluationError>,
)
    requires
        call_ensures(HiddenCapture::new, (), capture),
        call_ensures(PropagationAccumulator::new, (), propagation),
        call_ensures(LogitMetricAccumulator::new, (), metrics),
        call_ensures(LogitMetricAccumulator::finish, (&metrics,), r),
    ensures
        capture@.len() == 0,
        propagation@.len() == 0,
        metrics.observations == 0,
        metrics.top1_agreements == 0,
        metrics.non_finite_logits == 0,
        r == Err::<u64, EvaluationError>(EvaluationError::NoObservations),
{
}

/// Metrics with observations report how many there were.
pub proof fn metrics_report_their_observations(
    metrics: LogitMetricAccumulator,
    r: Result<u64, EvaluationError>,
)
    requires
        call_ensures(LogitMetricAccumulator::finish, (&metrics,), r),
    ensures
        r is Ok <==> metrics.observations > 0,
        r is Ok ==> r->Ok_0 == metrics.observations,
{
}

/// A site is recommended for fp8 exactly if one of its trials is selected, which passed the
/// screen. The report keeps what it was made of.
pub proof fn sites_are_recommended_by_their_trials(
    site: String,
    activation: String,
    weight: String,
    rows: usize,
    n: usize,
    k: usize,
    trials: Vec<GemmScaleTrial>,
    r: GemmSiteErrorReport,
)
    requires
        call_ensures(conclude_site, (site, activation, weight, rows, n, k, trials), r),
    ensures
        r.site == site,
        r.activation_site == activation,
        r.weight_site == weight,
        r.samples == rows,
        r.m == rows,
        r.n == n,
        r.k == k,
        r.trials == trials,
        r.recommendation == LocalPrecisionRecommendation::Fp8Tensorwide <==> r.selected_trial is Some,
        r.selected_trial is Some ==> r.selected_trial->Some_0 < trials@.len()
            && trials@[r.selected_trial->Some_0 as int].passes_local_screen,
{
}

/// A report says how it was measured.
pub proof fn reports_say_how_they_were_measured(
    sites: Vec<GemmSiteErrorReport>,
    r: Fp8GemmErrorReport,
)
    requires
        call_ensures(Fp8GemmErrorReport::new, (sites,), r),
    ensures
        r.schema_version == 1,
        r.input_source@ == "bounded_real_teacher_forced_decode_m1_activations"@,
        r.accumulation@ == "cuBLASLt_FP32_compute_BF16_output"@,
        r.local_screen@ == "cosine>=0.995_and_nrmse<=0.10_and_all_outputs_finite"@,
        r.sites == sites,
{
}

/// One row more was seen of a site: it is counted; while there is room it is appended, after
/// that the number of rows stays.
pub open spec fn takes_row(
    before: SamplesView,
    after: SamplesView,
    values: Seq<Bf16>,
    limit: usize,
) -> bool {
    &&& after.name == before.name
    &&& after.feature_size == before.feature_size
    &&& before.seen < u64::MAX ==> after.seen == before.seen + 1
    &&& before.rows < limit ==> after.rows == before.rows + 1 && after.values == before.values
        + values
    &&& before.rows >= limit ==> after.rows == before.rows && after.values.len()
        == before.values.len()
    &&& before.rows >= limit ==> after.values == before.values || forall|i: int|
        0 <= i < before.values.len() ==> {
            let start = reservoir_draw(after.seen) * before.feature_size;
            #[trigger] after.values[i] == (if start <= i < start + values.len() {
                values[i - start]
            } else {
                before.values[i]
            })
        }
}

/// Rows are sampled one at a time, while decoding, if samples are wanted at all: each goes to
/// the samples of its site, which are begun with the first.
pub proof fn decode_rows_are_sampled_by_site(
    collector: &mut CalibrationCollector,
    name: &str,
    feature_size: usize,
    rows: usize,
    values: &[Bf16],
    r: Result<(), CalibrationError>,
)
    requires
        call_ensures(
            CalibrationCollector::maybe_store_decode_sample,
            (collector, name, feature_size, rows, values),
            r,
        ),
    ensures
        ({
            let before = old(collector)@;
            let after = final(collector)@;
            let sampled = before.activation_phase == CalibrationPhase::Decode
                && before.decode_sample_limit > 0 && rows == 1;
            &&& after.entries == before.entries
            &&& !sampled ==> r is Ok && after == before
            &&& r is Err ==> after == before && r->Err_0
                == CalibrationError::SampleFeatureSizeChanged
            &&& sampled && r is Ok ==> exists|index: int| #[trigger]
                sample_goes_to(
                    before.samples,
                    after.samples,
                    index,
                    name@,
                    values@,
                    before.decode_sample_limit,
                )
        }),
{
    let before = old(collector)@;
    let after = final(collector)@;
    let sampled = before.activation_phase == CalibrationPhase::Decode && before.decode_sample_limit
        > 0 && rows == 1;
    if sampled {
        let index = choose|index: int| #[trigger] before.is_samples_index(name@, index) && (
        if index == before.samples.len() {
            r is Ok && after == (crate::model::calibration::CollectorView {
                samples: before.samples.push(
                    SamplesView::empty(name@, feature_size).with_row(
                        values@,
                        before.decode_sample_limit as int,
                    ),
                ),
                ..before
            })
        } else if before.samples[index].feature_size == feature_size {
            r is Ok && after == (crate::model::calibration::CollectorView {
                samples: before.samples.update(
                    index,
                    before.samples[index].with_row(values@, before.decode_sample_limit as int),
                ),
                ..before
            })
        } else {
            r == Err::<(), CalibrationError>(CalibrationError::SampleFeatureSizeChanged) && after
                == before
        });
        if r is Ok {
            if index == before.samples.len() {
                assert(after.samples.last().values =~= values@);
            }
            assert(sample_goes_to(
                before.samples,
                after.samples,
                index,
                name@,
                values@,
                before.decode_sample_limit,
            ));
        }
    }
}

/// The samples at this place are those of the site and take the row; no others change.
pub open spec fn sample_goes_to(
    before: Seq<SamplesView>,
    after: Seq<SamplesView>,
    index: int,
    name: Seq<char>,
    values: Seq<Bf16>,
    limit: usize,
) -> bool {
    &&& 0 <= index < after.len()
    &&& after[index].name == name
    &&& index < before.len() ==> after.len() == before.len() && takes_row(
        before[index],
        after[index],
        values,
        limit,
    )
    &&& index >= before.len() ==> index == before.len() && after.len() == before.len() + 1
        && after[index].rows == 1 && after[index].seen == 1 && after[index].values == values
    &&& forall|i: int| 0 <= i < before.len() && i != index ==> #[trigger] after[i] == before[i]
}

/// The sites to characterise are the feed-forward projections of every layer, the head, and
/// the operator projections of every layer, and they have to be as many as expected.
pub proof fn every_site_is_characterised(
    weights: Lfm2Weights,
    r: Result<Vec<WeightSite>, SiteCountMismatch>,
    layer: usize,
)
    requires
        call_ensures(Lfm2Weights::sites_to_characterize, (&weights,), r),
        r is Ok,
        layer < weights.layers@.len(),
    ensures
        r->Ok_0@.len() == crate::model::weights::CHARACTERIZED_SITES,
        r->Ok_0@.contains(WeightSite::LmHead),
        r->Ok_0@.contains(WeightSite::Layer { layer, projection: Projection::GateUp }),
        r->Ok_0@.contains(WeightSite::Layer { layer, projection: Projection::Down }),
{
    let mlp = crate::model::weights::mlp_sites(weights.layers@.len() as int);
    let operators = crate::model::weights::operator_sites(
        weights.layers@,
        weights.layers@.len() as int,
    );
    assert(r->Ok_0@ == mlp.push(WeightSite::LmHead) + operators);
    assert(r->Ok_0@[mlp.len() as int] == WeightSite::LmHead);
    lemma_mlp_sites(weights.layers@.len() as int, layer as int);
    assert(r->Ok_0@[2 * layer] == mlp[2 * layer]);
    assert(r->Ok_0@[2 * layer + 1] == mlp[2 * layer + 1]);
}

proof fn lemma_mlp_sites(upto: int, layer: int)
    requires
        0 <= layer < upto,
    ensures
        crate::model::weights::mlp_sites(upto).len() == 2 * upto,
        crate::model::weights::mlp_sites(upto)[2 * layer] == (WeightSite::Layer {
            layer: layer as usize,
            projection: Projection::GateUp,
        }),
        crate::model::weights::mlp_sites(upto)[2 * layer + 1] == (WeightSite::Layer {
            layer: layer as usize,
            projection: Projection::Down,
        }),
    decreases upto,
{
    if upto > 1 {
        if layer < upto - 1 {
            lemma_mlp_sites(upto - 1, layer);
        } else {
            lemma_mlp_sites(upto - 1, 0);
        }
    }
    assert(crate::model::weights::mlp_sites(0).len() == 0);
}

/// A layer hands out the weight that a projection names, and lists its projections, feed
/// forward first.
pub proof fn layers_hand_out_their_weights(
    layer: LayerWeights,
    projection: Projection,
    weight: LinearWeight,
    listed: Vec<Projection>,
)
    requires
        call_ensures(LayerWeights::weight, (&layer, projection), weight),
        call_ensures(LayerWeights::projection_list, (&layer,), listed),
    ensures
        projection == Projection::GateUp ==> weight == layer.gate_up,
        projection == Projection::Down ==> weight == layer.down,
        layer.operator matches OperatorWeights::Conv(conv) ==> {
            &&& projection == Projection::ConvInput ==> weight == conv.input
            &&& projection == Projection::ConvOutput ==> weight == conv.output
            &&& listed@ == seq![
                Projection::GateUp,
                Projection::Down,
                Projection::ConvInput,
                Projection::ConvOutput,
            ]
        },
        layer.operator matches OperatorWeights::Attention(attention) ==> {
            &&& projection == Projection::Query ==> weight == attention.query
            &&& projection == Projection::Key ==> weight == attention.key
            &&& projection == Projection::Value ==> weight == attention.value
            &&& projection == Projection::Output ==> weight == attention.output
            &&& listed@ == seq![
                Projection::GateUp,
                Projection::Down,
                Projection::Query,
                Projection::Key,
                Projection::Value,
                Projection::Output,
            ]
        },
{
}

} // verus!
