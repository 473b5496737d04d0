//! Forward plans, profiling and quantisation evidence.
use lfm25_inference::bf16::Bf16;
use lfm25_inference::float::{F32, F64};
use lfm25_inference::model::forward::{
    linear_dispatch, missing_packed_weight, plan_pass, readback_name, BatchShape, HeadRows,
    Instruments, LayerKind, LinearRoute, Op, Pass, Step,
};
use lfm25_inference::model::fp8_analysis::{
    compare_outputs, conclude_site, plan_trials, select_trial, AnalysisError, Fp8GemmErrorReport,
    GemmErrorMetrics, GemmScaleTrial, LocalPrecisionRecommendation, TrialStrategies,
};
use lfm25_inference::model::profile::{
    DecodeProfileMode, ModelProfileRecorder, ProfileAggregate, ProfileError, ProfileRegion,
};
use lfm25_inference::model::quantization::{
    expected_decode_saving_us, identity_scale, Fp8PrecisionPolicy, PrecisionClass, ScalarScale,
    ScaleStrategy, SiteScales, TensorwideE4m3ScaleCandidates,
};
use lfm25_inference::model::weights::{
    AttentionWeights, ConvWeights, LayerWeights, Lfm2Model, Lfm2Weights, LinearWeight,
    OperatorWeights, Projection,
};

fn single(value: f32) -> F32 {
    F32 { bits: value.to_bits() }
}

fn double(value: f64) -> F64 {
    F64 { bits: value.to_bits() }
}

fn scale() -> ScalarScale {
    ScalarScale {
        clip_amax: single(2.0),
        quantize_multiplier: single(224.0),
        dequantize_multiplier: single(1.0 / 224.0),
    }
}

fn model() -> Lfm2Model {
    let linear = LinearWeight::bf16(4, 4);
    let conv = LayerWeights {
        operator_norm_elements: 4,
        operator: OperatorWeights::Conv(ConvWeights {
            input: linear,
            convolution_elements: 12,
            output: linear,
        }),
        ffn_norm_elements: 4,
        gate_up: linear,
        down: linear,
    };
    let attention = LayerWeights {
        operator: OperatorWeights::Attention(AttentionWeights {
            query: linear,
            key: linear,
            value: linear,
            output: linear,
            query_norm_elements: 2,
            key_norm_elements: 2,
        }),
        ..conv
    };
    let weights = Lfm2Weights {
        embedding: linear,
        final_norm_elements: 4,
        inv_freq_elements: 1,
        layers: vec![conv, attention],
    };
    Lfm2Model::new(weights, false)
}

const KINDS: [LayerKind; 2] = [LayerKind::Conv, LayerKind::Attention];

const NO_INSTRUMENTS: Instruments = Instruments {
    profile: DecodeProfileMode::Off,
    calibration: false,
    capture: false,
};

fn ops(steps: &[Step]) -> Vec<Op> {
    steps.iter().map(|step| step.op).collect()
}

#[test]
fn prefills_run_every_layer_in_bf16() {
    let model = model();
    let pass = model.sequence_pass(0, 8, false, NO_INSTRUMENTS);
    assert!(!pass.use_fp8);
    let steps = plan_pass(&model.weights, &KINDS.to_vec(), &pass).unwrap();
    let ops = ops(&steps);
    assert_eq!(ops[0], Op::Embed);
    assert_eq!(*ops.last().unwrap(), Op::Head { rows: HeadRows::Last, route: LinearRoute::Bf16 });
    let projections = ops.iter().filter(|op| matches!(op, Op::Project { .. })).count();
    assert_eq!(projections, 10);
    assert!(ops.iter().all(|op| !matches!(
        op,
        Op::Project { route: LinearRoute::Fp8, .. }
            | Op::Project { route: LinearRoute::Fp8Prequantized, .. }
    )));
    let wrong = vec![LayerKind::Attention, LayerKind::Attention];
    assert_eq!(plan_pass(&model.weights, &wrong, &pass).unwrap_err().layer, 0);
}

#[test]
fn single_tokens_decode_in_fp8_where_installed() {
    let mut model = model();
    let scales = SiteScales { activation: scale(), weight: scale() };
    model.weights.layers[0].down.fp8 = Some(scales);
    model.decode_fp8_enabled = true;
    let pass = model.sequence_pass(8, 1, false, NO_INSTRUMENTS);
    assert!(pass.use_fp8);
    let steps = plan_pass(&model.weights, &KINDS.to_vec(), &pass).unwrap();
    let routes: Vec<(Option<usize>, Projection, LinearRoute)> = steps
        .iter()
        .filter_map(|step| match step.op {
            Op::Project { projection, route } => Some((step.layer, projection, route)),
            _ => None,
        })
        .collect();
    let fp8: Vec<_> = routes.iter().filter(|entry| entry.2 != LinearRoute::Bf16).collect();
    assert_eq!(fp8.len(), 1);
    assert_eq!((fp8[0].0, fp8[0].1), (Some(0), Projection::Down));
    let weight = model.weights.layers[0].down;
    assert_eq!(linear_dispatch(true, &weight, false), LinearRoute::Fp8);
    assert_eq!(linear_dispatch(true, &weight, true), LinearRoute::Fp8Prequantized);
    assert_eq!(linear_dispatch(false, &weight, false), LinearRoute::Bf16);
    assert_eq!(linear_dispatch(true, &LinearWeight::bf16(1, 1), true), LinearRoute::Bf16);
}

#[test]
fn instruments_change_no_computation() {
    let model = model();
    let plain = model.sequence_pass(4, 1, false, NO_INSTRUMENTS);
    let timed = model.sequence_pass(
        4,
        1,
        false,
        Instruments { profile: DecodeProfileMode::Detailed, ..NO_INSTRUMENTS },
    );
    let kinds = KINDS.to_vec();
    let plain_steps = plan_pass(&model.weights, &kinds, &plain).unwrap();
    let timed_steps = plan_pass(&model.weights, &kinds, &timed).unwrap();
    assert_eq!(ops(&plain_steps), ops(&timed_steps));
    assert!(plain_steps.iter().all(|step| step.region.is_none()));
    assert!(timed_steps.iter().any(|step| step.region == Some(ProfileRegion::LmHead)));
    let watched = model.sequence_pass(
        4,
        1,
        false,
        Instruments { calibration: true, capture: true, ..NO_INSTRUMENTS },
    );
    let watched_steps = plan_pass(&model.weights, &kinds, &watched).unwrap();
    let computed: Vec<Op> = ops(&watched_steps)
        .into_iter()
        .filter(|op| {
            !matches!(op, Op::Observe { .. } | Op::ObserveHeadInput | Op::Capture { .. })
        })
        .collect();
    assert!(watched_steps.len() > computed.len());
    assert_eq!(computed, ops(&plain_steps));
    assert!(plain_steps.iter().all(|step| readback_name(step).is_none()));
    let names: Vec<String> = watched_steps.iter().filter_map(readback_name).collect();
    assert_eq!(watched_steps.len() - computed.len(), names.len());
    assert!(names.contains(&"lm_head.input".to_string()));
    assert_eq!(names.iter().filter(|name| *name == "final_rms_norm").count(), 1);
}

#[test]
fn batches_gather_their_output_rows() {
    let model = model();
    let shape = BatchShape {
        tokens: 6,
        prefill_rows: true,
        decode_only: false,
        one_kernel: false,
        contiguous_prefill: false,
        segmented_prefill: true,
        longest_segment: 4,
        flash_prefill: true,
    };
    let kinds = KINDS.to_vec();
    let batch = plan_pass(&model.weights, &kinds, &model.batch_pass(shape)).unwrap();
    assert!(ops(&batch).contains(&Op::GatherRows));
    let decode = BatchShape { decode_only: true, prefill_rows: false, tokens: 2, ..shape };
    let packed = model.packed_pass(decode);
    let packed_ops = ops(&plan_pass(&model.weights, &kinds, &packed).unwrap());
    assert!(packed_ops.contains(&Op::ProjectPackedQkv));
    assert_eq!(missing_packed_weight(&model.weights, &vec![false, true], &packed), None);
    assert_eq!(missing_packed_weight(&model.weights, &vec![false, false], &packed), Some(1));
    assert!(!ops(&plan_pass(&model.weights, &kinds, &model.batch_pass(decode)).unwrap()).is_empty());
    let executor = plan_pass(&model.weights, &kinds, &model.executor_pass(false, false, 8)).unwrap();
    assert_eq!(*ops(&executor).last().unwrap(), Op::Argmax);
    let speculative = plan_pass(&model.weights, &kinds, &model.speculative_pass(4, 3)).unwrap();
    assert_eq!(
        *ops(&speculative).last().unwrap(),
        Op::Head { rows: HeadRows::All, route: LinearRoute::Bf16 }
    );
}

fn fp8_model() -> Lfm2Model {
    let mut model = model();
    let scales = SiteScales { activation: scale(), weight: scale() };
    model.weights.layers[0].down.fp8 = Some(scales);
    model.weights.layers[1].down.fp8 = Some(scales);
    model.weights.embedding.fp8 = Some(scales);
    model.decode_fp8_enabled = true;
    model
}

fn runs_fp8(steps: &[Step]) -> bool {
    steps.iter().any(|step| match step.op {
        Op::Project { route, .. } | Op::Head { route, .. } => route != LinearRoute::Bf16,
        Op::ActivateQuantized => true,
        _ => false,
    })
}

#[test]
fn one_token_of_a_prompt_is_prefilled_in_bf16() {
    let model = fp8_model();
    let kinds = KINDS.to_vec();
    let decode = BatchShape {
        tokens: 1,
        prefill_rows: false,
        decode_only: true,
        one_kernel: false,
        contiguous_prefill: false,
        segmented_prefill: false,
        longest_segment: 0,
        flash_prefill: false,
    };
    let prefill = BatchShape { prefill_rows: true, ..decode };
    let plan = |pass: &Pass| plan_pass(&model.weights, &kinds, pass).unwrap();
    assert!(runs_fp8(&plan(&model.batch_pass(decode))));
    assert!(runs_fp8(&plan(&model.executor_pass(false, false, 1))));
    assert!(!runs_fp8(&plan(&model.batch_pass(prefill))));
    assert!(!runs_fp8(&plan(&model.packed_pass(prefill))));
    assert!(!runs_fp8(&plan(&model.executor_pass(true, false, 1))));
    assert!(!runs_fp8(&plan(&model.sequence_pass(0, 1, false, NO_INSTRUMENTS))));
    assert!(!runs_fp8(&plan(&model.sequence_pass(9, 2, false, NO_INSTRUMENTS))));
    assert!(runs_fp8(&plan(&model.sequence_pass(9, 1, false, NO_INSTRUMENTS))));
}

#[test]
fn the_executor_computes_what_the_batch_pass_computes() {
    let model = fp8_model();
    let kinds = KINDS.to_vec();
    let shape = BatchShape {
        tokens: 1,
        prefill_rows: false,
        decode_only: true,
        one_kernel: false,
        contiguous_prefill: false,
        segmented_prefill: false,
        longest_segment: 0,
        flash_prefill: false,
    };
    let products = |pass: &Pass| -> Vec<(Option<usize>, Option<Projection>, bool)> {
        plan_pass(&model.weights, &kinds, pass)
            .unwrap()
            .iter()
            .filter_map(|step| match step.op {
                Op::Project { projection, route } => {
                    Some((step.layer, Some(projection), route == LinearRoute::Bf16))
                }
                Op::Head { route, .. } => Some((step.layer, None, route == LinearRoute::Bf16)),
                _ => None,
            })
            .collect()
    };
    for splits in [1, 8] {
        let executor = products(&model.executor_pass(false, false, splits));
        assert_eq!(executor, products(&model.batch_pass(shape)));
    }
}

#[test]
fn fused_attention_is_timed_with_its_postprocessing() {
    let model = model();
    let detailed = Instruments { profile: DecodeProfileMode::Detailed, ..NO_INSTRUMENTS };
    let pass = model.sequence_pass(4, 1, true, detailed);
    let steps = plan_pass(&model.weights, &KINDS.to_vec(), &pass).unwrap();
    let timed: Vec<Op> = steps
        .iter()
        .filter(|step| step.region == Some(ProfileRegion::AttnPostprocess))
        .map(|step| step.op)
        .collect();
    assert_eq!(timed, vec![Op::PostprocessInAttention]);
}

#[test]
fn recorders_measure_after_warm_up() {
    assert!(ModelProfileRecorder::new(DecodeProfileMode::Off, 0, 0).unwrap().is_none());
    assert_eq!(
        ModelProfileRecorder::new(DecodeProfileMode::Coarse, 0, 0).unwrap_err(),
        ProfileError::NoStepsRequested
    );
    let mut recorder =
        ModelProfileRecorder::new(DecodeProfileMode::Detailed, 1, 2).unwrap().unwrap();
    assert_eq!(recorder.mode(), DecodeProfileMode::Detailed);
    assert_eq!(recorder.start_step(), Ok(false));
    assert!(!recorder.region(ProfileRegion::Mlp) && recorder.finish_step().is_empty());
    assert!(!recorder.has_steps());
    assert_eq!(recorder.start_step(), Ok(true));
    assert!(recorder.is_measuring());
    assert_eq!(recorder.start_step(), Err(ProfileError::StepAlreadyActive));
    assert!(recorder.region(ProfileRegion::LmHead) && recorder.region(ProfileRegion::Mlp));
    assert_eq!(recorder.finish_step(), vec![ProfileRegion::LmHead, ProfileRegion::Mlp]);
    assert_eq!(recorder.start_step(), Ok(true));
    assert!(recorder.region(ProfileRegion::Mlp));
    recorder.finish_step();
    assert_eq!(recorder.start_step(), Ok(false));
    assert!(recorder.has_steps());
    assert!(recorder.report().is_ok());
}

#[test]
fn regions_have_names_and_groups() {
    assert_eq!(ProfileRegion::LmHead.aggregate(), ProfileAggregate::LmHead);
    assert_eq!(ProfileRegion::ConvKernel.aggregate(), ProfileAggregate::Conv);
    assert_ne!(ProfileRegion::Mlp.name(), ProfileRegion::MlpSilu.name());
    assert!(!ProfileAggregate::Attention.name().is_empty());
}

#[test]
fn zero_scale_is_identity() {
    let candidate = |clip: f32| identity_scale(single(clip)).unwrap_or(scale());
    let candidates = TensorwideE4m3ScaleCandidates {
        max: candidate(0.0),
        p99: candidate(0.0),
        p99_9: candidate(0.0),
        p99_99: candidate(0.0),
    };
    assert_eq!(f32::from_bits(candidates.max.quantize_multiplier.bits), 1.0);
    assert_eq!(f32::from_bits(candidates.max.dequantize_multiplier.bits), 1.0);
    assert_eq!(candidates.get(ScaleStrategy::Amax), candidates.max);
}

#[test]
fn unusable_clips_are_not_scaled() {
    for clip in [0.0f32, -0.0, -1.0, f32::NAN, f32::INFINITY] {
        let identity = identity_scale(single(clip)).unwrap();
        assert_eq!(identity.clip_amax, single(0.0));
        assert_eq!(identity.quantize_multiplier, single(1.0));
    }
    assert!(identity_scale(single(0.5)).is_none());
    let scaled = |clip: f32| ScalarScale { clip_amax: single(clip), ..scale() };
    let candidates = TensorwideE4m3ScaleCandidates {
        max: scaled(4.0),
        p99: scaled(1.0),
        p99_9: scaled(2.0),
        p99_99: scaled(3.0),
    };
    assert_eq!(candidates.get(ScaleStrategy::P99_9), scaled(2.0));
    assert_eq!(candidates.get(ScaleStrategy::P99_99), scaled(3.0));
}

fn metrics(nrmse: f64, cosine: f64) -> GemmErrorMetrics {
    GemmErrorMetrics {
        values: 1,
        nrmse: double(nrmse),
        cosine: double(cosine),
        max_abs_error: single(0.0),
        max_relative_error: single(0.0),
        rms_error: double(0.0),
        output_rms_ratio: double(1.0),
        non_finite_values: 0,
    }
}

fn trial(nrmse: f64, cosine: f64) -> GemmScaleTrial {
    let metrics = metrics(nrmse, cosine);
    GemmScaleTrial {
        activation_strategy: ScaleStrategy::P99_9,
        weight_strategy: ScaleStrategy::Amax,
        activation_scale: scale(),
        weight_scale: scale(),
        activation_clipping_count: 0,
        activation_clipping_fraction: double(0.0),
        weight_clipping_count: 0,
        weight_clipping_fraction: double(0.0),
        passes_local_screen: metrics.passes_local_screen(),
        metrics,
    }
}

#[test]
fn the_best_passing_trial_is_selected() {
    assert!(metrics(0.10, 0.995).passes_local_screen());
    assert!(!metrics(0.11, 1.0).passes_local_screen());
    assert!(!metrics(0.0, 0.99).passes_local_screen());
    assert!(!GemmErrorMetrics { non_finite_values: 1, ..metrics(0.0, 1.0) }.passes_local_screen());
    let trials = vec![
        trial(0.05, 0.996),
        trial(0.01, 0.5),
        trial(0.02, 0.997),
        trial(0.02, 0.998),
        trial(0.02, 0.998),
    ];
    assert_eq!(select_trial(&trials), Some(3));
    assert_eq!(select_trial(&vec![trial(0.5, 0.5)]), None);
    let plan = plan_trials(2, 8, 8).unwrap();
    assert_eq!(plan.len(), 9);
    assert_eq!(
        plan[1],
        TrialStrategies { weight: ScaleStrategy::Amax, activation: ScaleStrategy::P99_99 }
    );
    assert_eq!(plan_trials(0, 8, 8).unwrap_err(), AnalysisError::NoSamples);
    assert_eq!(plan_trials(1, 8, 9).unwrap_err(), AnalysisError::ShapeMismatch);
}

#[test]
fn policies_follow_the_local_evidence() {
    let site = |name: &str, trials: Vec<GemmScaleTrial>| {
        conclude_site(name.to_string(), "a".to_string(), "w".to_string(), 3, 4, 5, trials)
    };
    let good = site("layers.0.mlp.down", vec![trial(0.01, 0.999)]);
    assert_eq!(good.recommendation, LocalPrecisionRecommendation::Fp8Tensorwide);
    let bad = site("lm_head", vec![trial(0.5, 0.9)]);
    assert_eq!(bad.recommendation, LocalPrecisionRecommendation::Bf16);
    assert_eq!((bad.samples, bad.m, bad.n, bad.k), (3, 3, 4, 5));
    let report = Fp8GemmErrorReport::new(vec![good, bad]);
    let mut policy = Fp8PrecisionPolicy::from_local_errors(&report, "local".to_string());
    assert_eq!(policy.sites.len(), 1);
    assert!(policy.sites[0].enabled && policy.decode_only);
    assert_eq!(
        policy.sites[0].expected_decode_saving_us,
        expected_decode_saving_us("layers.0.mlp.down")
    );
    policy.retain_class(PrecisionClass::MlpLmHead);
    assert!(policy.sites[0].enabled);
    assert!(PrecisionClass::Mlp.includes("layers.1.mlp.gate_up"));
    assert!(!PrecisionClass::Mlp.includes("lm_head"));
    assert!(PrecisionClass::MlpLmHeadConv.includes("layers.2.conv.input"));
    assert!(PrecisionClass::All.includes("layers.2.attention.key"));
    let copy = policy.sites[0].duplicate();
    assert_eq!(copy.site, "layers.0.mlp.down");
    assert_eq!(copy.scales(), policy.sites[0].scales());
}

#[test]
fn savings_are_those_of_the_measured_kernels() {
    let saving = |site: &str| f64::from_bits(expected_decode_saving_us(site).bits);
    assert_eq!(saving("layers.0.mlp.gate_up"), (3415.0 - 3415.0 / 1.863) / 16.0);
    assert_eq!(saving("layers.0.mlp.down"), (1801.0 - 1801.0 / 1.546) / 16.0);
    assert_eq!(saving("lm_head"), 1007.0 - 1007.0 / 2.41);
    assert_eq!(saving("layers.3.conv.input"), (1018.0 + 442.0) * 0.20 / 20.0);
    assert_eq!(saving("layers.2.attention.query"), (396.0 + 195.0) * 0.18 / 24.0);
    assert_eq!(saving("unknown"), 0.0);
}

#[test]
fn outputs_are_compared_where_both_are_finite() {
    let brains = |values: &[f32]| -> Vec<Bf16> {
        values.iter().map(|value| Bf16 { bits: half::bf16::from_f32(*value).to_bits() }).collect()
    };
    let compared =
        compare_outputs(&brains(&[1.0, f32::NAN, 3.0]), &brains(&[1.0, 2.0, f32::INFINITY]))
            .unwrap();
    assert_eq!(compared.positions, vec![0]);
    assert_eq!(compared.non_finite_values, 2);
    assert_eq!(compare_outputs(&[], &[]).unwrap_err(), AnalysisError::ShapeMismatch);
    assert_eq!(
        compare_outputs(&brains(&[1.0]), &brains(&[1.0, 2.0])).unwrap_err(),
        AnalysisError::ShapeMismatch
    );
}
