//! Forward passes as plans: which kernels run, in which order and precision.
//!
//! A pass is decided completely before it runs. The application walks the plan and
//! launches one kernel, observation or capture for each step.
use vstd::prelude::*;

use crate::engine::batch::RaggedBatch;
#[allow(unused_imports)]
use crate::engine::batch::RaggedView;
use crate::model::batch_cache::BatchModelCache;
use crate::model::profile::{DecodeProfileMode, ProfileRegion};
use crate::model::weights::{
    AttentionWeights, ConvWeights, LayerWeights, Lfm2Model, Lfm2Weights, LinearWeight,
    OperatorWeights, Projection,
};
#[allow(unused_imports)]
use crate::model::weights::{layer_path, WeightsView};
use crate::model::weights::{input_name, layer_name};

verus! {

/// The number format that a product runs in.
#[derive(Clone, Copy, Debug, PartialEq, Eq, Structural)]
pub enum LinearRoute {
    Bf16,
    /// The input is quantised first.
    Fp8,
    /// The input is already quantised.
    Fp8Prequantized,
}

#[derive(Clone, Copy, Debug, PartialEq, Eq, Structural)]
pub enum AttentionKernel {
    /// All queries against the keys of the same pass.
    Prefill,
    /// Normalisation, rotation, cache write and attention in one kernel.
    FusedPaged,
    /// One sequence against its cache.
    PagedFast,
    /// The fused kernel for a batch of sequences.
    FusedRaggedPaged,
    /// A batch of sequences against their caches.
    RaggedFast,
    /// A batch against their caches, the context split this many ways.
    RaggedSplit { splits: usize },
    /// Several whole prompts side by side.
    SegmentedPrefill { longest: usize },
    /// Prefill and decode rows mixed.
    Hybrid,
}

/// How queries, keys and values are made.
#[derive(Clone, Copy, Debug, PartialEq, Eq, Structural)]
pub enum QkvProjection {
    Separate,
    /// One bf16 product with the packed weight.
    Packed,
}

/// What happens between projection and attention.
#[derive(Clone, Copy, Debug, PartialEq, Eq, Structural)]
pub enum QkvPostprocess {
    /// Normalise, rotate and write to the cache, one after another.
    Stepwise,
    /// The same in one kernel.
    Fused,
    /// The same on a packed projection.
    FusedPacked,
    /// The attention kernel does it.
    InAttention,
}

/// The way through an attention operator, the same for all layers of a pass.
#[derive(Clone, Copy, Debug, PartialEq, Eq, Structural)]
pub struct AttentionRoute {
    pub projection: QkvProjection,
    pub postprocess: QkvPostprocess,
    pub kernel: AttentionKernel,
}

#[derive(Clone, Copy, Debug, PartialEq, Eq, Structural)]
pub enum ConvKernel {
    /// One sequence.
    Single,
    /// One sequence, keeping the state after every token.
    WithHistory,
    /// A batch of segments.
    Segmented,
}

/// The rows that logits are computed for.
#[derive(Clone, Copy, Debug, PartialEq, Eq, Structural)]
pub enum HeadRows {
    Last,
    All,
    /// One selected row for each segment.
    Gathered,
}

/// What watches a pass.
#[derive(Clone, Copy, Debug, PartialEq, Eq, Structural)]
pub struct Instruments {
    pub profile: DecodeProfileMode,
    /// Activations are observed for calibration.
    pub calibration: bool,
    /// Hidden states are captured for evaluation.
    pub capture: bool,
}

/// Places at which hidden states are captured.
#[derive(Clone, Copy, Debug, PartialEq, Eq, Structural)]
pub enum CapturePoint {
    PostMixerResidual,
    PostFfnResidual,
    FinalRmsNorm,
}

#[derive(Clone, Copy, Debug, PartialEq, Eq, Structural)]
pub enum Op {
    Embed,
    /// The first layer's operator norm.
    InitialNorm,
    Project { projection: Projection, route: LinearRoute },
    ProjectPackedQkv,
    NormRopeWrite,
    FusedNormRopeWrite,
    PackedNormRopeWrite,
    /// Nothing runs, as the attention kernel contains the work. The step is there to be timed.
    PostprocessInAttention,
    Attend { kernel: AttentionKernel },
    Convolve { conv: ConvKernel },
    /// Gate the feed-forward activations.
    Activate,
    /// Gate them and quantise the result.
    ActivateQuantized,
    /// Add the operator's output and normalise for the feed-forward part.
    MixNorm { quantize: bool },
    /// Add the feed-forward output and normalise for the next layer, or for the head.
    NextNorm { last: bool, quantize: bool },
    /// Observe the input of a projection.
    Observe { projection: Projection },
    /// Observe the last row that the head reads.
    ObserveHeadInput,
    Capture { point: CapturePoint },
    GatherRows,
    Head { rows: HeadRows, route: LinearRoute },
    Argmax,
}

/// One step of a pass. Consecutive steps with the same region are timed as one span.
#[derive(Clone, Copy, Debug, PartialEq, Eq, Structural)]
pub struct Step {
    pub layer: Option<usize>,
    pub op: Op,
    pub region: Option<ProfileRegion>,
}

/// Everything that decides a pass beside the weights.
#[derive(Clone, Copy, Debug, PartialEq, Eq, Structural)]
pub struct Pass {
    pub use_fp8: bool,
    /// Norms quantise their output where an fp8 product reads it.
    pub fuse_norms: bool,
    /// Gating quantises its output where an fp8 product reads it.
    pub fuse_activation: bool,
    pub instruments: Instruments,
    pub attention: AttentionRoute,
    pub conv: ConvKernel,
    pub head: HeadRows,
    pub argmax: bool,
}

/// The kind of state that a cache keeps for a layer.
#[derive(Clone, Copy, Debug, PartialEq, Eq, Structural)]
pub enum LayerKind {
    Conv,
    Attention,
}

impl LayerKind {
    pub open spec fn fits(self, operator: OperatorWeights) -> bool {
        match self {
            LayerKind::Conv => operator is Conv,
            LayerKind::Attention => operator is Attention,
        }
    }
}

/// The cache keeps another kind of state for this layer than its operator needs.
#[derive(Clone, Copy, Debug, PartialEq, Eq, Structural)]
pub struct LayerMismatch {
    pub layer: usize,
}

/// The region of a step that is timed with its operator when profiling is coarse, and by
/// itself when it is detailed.
pub open spec fn region_of(mode: DecodeProfileMode, whole: ProfileRegion, part: ProfileRegion) -> Option<
    ProfileRegion,
> {
    match mode {
        DecodeProfileMode::Off => None,
        DecodeProfileMode::Coarse => Some(whole),
        DecodeProfileMode::Detailed => Some(part),
    }
}

/// The region of a step that is timed only together with its operator.
pub open spec fn enclosing_region(mode: DecodeProfileMode, whole: ProfileRegion) -> Option<ProfileRegion> {
    if mode == DecodeProfileMode::Coarse {
        Some(whole)
    } else {
        None
    }
}

/// The region of a step that is always timed by itself.
pub open spec fn own_region(mode: DecodeProfileMode, region: ProfileRegion) -> Option<ProfileRegion> {
    region_of(mode, region, region)
}

fn region(mode: DecodeProfileMode, whole: ProfileRegion, part: ProfileRegion) -> (r: Option<
    ProfileRegion,
>)
    ensures
        r == region_of(mode, whole, part),
{
    match mode {
        DecodeProfileMode::Off => None,
        DecodeProfileMode::Coarse => Some(whole),
        DecodeProfileMode::Detailed => Some(part),
    }
}

fn enclosing(mode: DecodeProfileMode, whole: ProfileRegion) -> (r: Option<ProfileRegion>)
    ensures
        r == enclosing_region(mode, whole),
{
    match mode {
        DecodeProfileMode::Coarse => Some(whole),
        _ => None,
    }
}

/// The format of a product with this weight.
pub open spec fn route_of(use_fp8: bool, weight: LinearWeight, prequantized: bool) -> LinearRoute {
    if !use_fp8 || weight.fp8 is None {
        LinearRoute::Bf16
    } else if prequantized {
        LinearRoute::Fp8Prequantized
    } else {
        LinearRoute::Fp8
    }
}

/// Picks the format of a product: fp8 where it is on and the weight has an fp8 copy.
pub fn linear_dispatch(use_fp8: bool, weight: &LinearWeight, prequantized: bool) -> (r: LinearRoute)
    ensures
        r == route_of(use_fp8, *weight, prequantized),
{
    if !use_fp8 || weight.fp8.is_none() {
        LinearRoute::Bf16
    } else if prequantized {
        LinearRoute::Fp8Prequantized
    } else {
        LinearRoute::Fp8
    }
}

/// The plan with one more step, if the condition holds.
pub open spec fn with_step_when(plan: Seq<Step>, condition: bool, step: Step) -> Seq<Step> {
    if condition {
        plan.push(step)
    } else {
        plan
    }
}

fn push_when(plan: &mut Vec<Step>, condition: bool, step: Step)
    ensures
        final(plan)@ == with_step_when(old(plan)@, condition, step),
{
    if condition {
        plan.push(step);
    }
}

pub open spec fn project_step(
    layer: usize,
    projection: Projection,
    weight: LinearWeight,
    pass: Pass,
    prequantized: bool,
    region: Option<ProfileRegion>,
) -> Step {
    Step {
        layer: Some(layer),
        op: Op::Project { projection, route: route_of(pass.use_fp8, weight, prequantized) },
        region,
    }
}

fn make_project(
    layer: usize,
    projection: Projection,
    weight: &LinearWeight,
    pass: &Pass,
    prequantized: bool,
    region: Option<ProfileRegion>,
) -> (r: Step)
    ensures
        r == project_step(layer, projection, *weight, *pass, prequantized, region),
{
    Step {
        layer: Some(layer),
        op: Op::Project {
            projection,
            route: linear_dispatch(pass.use_fp8, weight, prequantized),
        },
        region,
    }
}

/// The plan with the projection of queries, keys and values.
pub open spec fn with_qkv(plan: Seq<Step>, layer: usize, weights: AttentionWeights, pass: Pass) -> Seq<
    Step,
> {
    let region = region_of(
        pass.instruments.profile,
        ProfileRegion::Attention,
        ProfileRegion::AttnQkvProj,
    );
    match pass.attention.projection {
        QkvProjection::Separate => plan.push(
            project_step(layer, Projection::Query, weights.query, pass, false, region),
        ).push(project_step(layer, Projection::Key, weights.key, pass, false, region)).push(
            project_step(layer, Projection::Value, weights.value, pass, false, region),
        ),
        QkvProjection::Packed => plan.push(
            Step { layer: Some(layer), op: Op::ProjectPackedQkv, region },
        ),
    }
}

/// The plan with the step between projection and attention. It is timed even where the
/// attention kernel contains it.
pub open spec fn with_postprocess(plan: Seq<Step>, layer: usize, pass: Pass) -> Seq<Step> {
    let region = region_of(
        pass.instruments.profile,
        ProfileRegion::Attention,
        ProfileRegion::AttnPostprocess,
    );
    match pass.attention.postprocess {
        QkvPostprocess::Stepwise => plan.push(
            Step { layer: Some(layer), op: Op::NormRopeWrite, region },
        ),
        QkvPostprocess::Fused => plan.push(
            Step { layer: Some(layer), op: Op::FusedNormRopeWrite, region },
        ),
        QkvPostprocess::FusedPacked => plan.push(
            Step { layer: Some(layer), op: Op::PackedNormRopeWrite, region },
        ),
        QkvPostprocess::InAttention => plan.push(
            Step { layer: Some(layer), op: Op::PostprocessInAttention, region },
        ),
    }
}

/// The plan with an attention operator.
pub open spec fn with_attention(
    plan: Seq<Step>,
    layer: usize,
    weights: AttentionWeights,
    pass: Pass,
) -> Seq<Step> {
    let mode = pass.instruments.profile;
    let ready = with_postprocess(with_qkv(plan, layer, weights, pass), layer, pass);
    with_step_when(
        ready.push(
            Step {
                layer: Some(layer),
                op: Op::Attend { kernel: pass.attention.kernel },
                region: region_of(mode, ProfileRegion::Attention, ProfileRegion::AttnXqa),
            },
        ),
        pass.instruments.calibration,
        Step {
            layer: Some(layer),
            op: Op::Observe { projection: Projection::Output },
            region: enclosing_region(mode, ProfileRegion::Attention),
        },
    ).push(
        project_step(
            layer,
            Projection::Output,
            weights.output,
            pass,
            false,
            region_of(mode, ProfileRegion::Attention, ProfileRegion::AttnOutProj),
        ),
    )
}

/// The plan with a convolution operator.
pub open spec fn with_conv(plan: Seq<Step>, layer: usize, weights: ConvWeights, pass: Pass) -> Seq<
    Step,
> {
    let mode = pass.instruments.profile;
    with_step_when(
        plan.push(
            project_step(
                layer,
                Projection::ConvInput,
                weights.input,
                pass,
                false,
                region_of(mode, ProfileRegion::Conv, ProfileRegion::ConvInProj),
            ),
        ).push(
            Step {
                layer: Some(layer),
                op: Op::Convolve { conv: pass.conv },
                region: region_of(mode, ProfileRegion::Conv, ProfileRegion::ConvKernel),
            },
        ),
        pass.instruments.calibration,
        Step {
            layer: Some(layer),
            op: Op::Observe { projection: Projection::ConvOutput },
            region: enclosing_region(mode, ProfileRegion::Conv),
        },
    ).push(
        project_step(
            layer,
            Projection::ConvOutput,
            weights.output,
            pass,
            false,
            region_of(mode, ProfileRegion::Conv, ProfileRegion::ConvOutProj),
        ),
    )
}

/// The plan with the layer's operator.
pub open spec fn with_operator(plan: Seq<Step>, layer: usize, weights: LayerWeights, pass: Pass) -> Seq<
    Step,
> {
    match weights.operator {
        OperatorWeights::Attention(attention) => with_attention(plan, layer, attention, pass),
        OperatorWeights::Conv(conv) => with_conv(plan, layer, conv, pass),
    }
}

/// The projection whose input the layer's operator reads first.
pub open spec fn operator_input(weights: LayerWeights) -> Projection {
    match weights.operator {
        OperatorWeights::Attention(_) => Projection::Query,
        OperatorWeights::Conv(_) => Projection::ConvInput,
    }
}

/// The feed-forward norm hands a quantised input to the first product.
pub open spec fn fuses_mix_norm(weights: LayerWeights, pass: Pass) -> bool {
    pass.fuse_norms && pass.use_fp8 && weights.gate_up.fp8 is Some
}

/// Gating hands a quantised input to the second product.
pub open spec fn fuses_activation(weights: LayerWeights, pass: Pass) -> bool {
    pass.fuse_activation && pass.use_fp8 && weights.down.fp8 is Some
}

/// The plan with the feed-forward part of a layer.
pub open spec fn with_feed_forward(
    plan: Seq<Step>,
    layer: usize,
    weights: LayerWeights,
    pass: Pass,
) -> Seq<Step> {
    let mode = pass.instruments.profile;
    let observed = with_step_when(
        plan,
        pass.instruments.calibration && !fuses_mix_norm(weights, pass),
        Step {
            layer: Some(layer),
            op: Op::Observe { projection: Projection::GateUp },
            region: enclosing_region(mode, ProfileRegion::Mlp),
        },
    );
    let activated = observed.push(
        project_step(
            layer,
            Projection::GateUp,
            weights.gate_up,
            pass,
            fuses_mix_norm(weights, pass),
            region_of(mode, ProfileRegion::Mlp, ProfileRegion::MlpGateUpGemm),
        ),
    ).push(
        Step {
            layer: Some(layer),
            op: if fuses_activation(weights, pass) {
                Op::ActivateQuantized
            } else {
                Op::Activate
            },
            region: region_of(mode, ProfileRegion::Mlp, ProfileRegion::MlpSilu),
        },
    );
    with_step_when(
        activated,
        pass.instruments.calibration,
        Step {
            layer: Some(layer),
            op: Op::Observe { projection: Projection::Down },
            region: enclosing_region(mode, ProfileRegion::Mlp),
        },
    ).push(
        project_step(
            layer,
            Projection::Down,
            weights.down,
            pass,
            fuses_activation(weights, pass),
            region_of(mode, ProfileRegion::Mlp, ProfileRegion::MlpDownGemm),
        ),
    )
}

/// The last norm hands a quantised input to the head.
pub open spec fn fuses_final_norm(weights: WeightsView, pass: Pass) -> bool {
    pass.fuse_norms && pass.use_fp8 && weights.embedding.fp8 is Some
}

/// The plan with everything of a layer up to its feed-forward part.
pub open spec fn with_mixer(plan: Seq<Step>, layer: usize, weights: LayerWeights, pass: Pass) -> Seq<
    Step,
> {
    let observed = with_step_when(
        plan,
        pass.instruments.calibration,
        Step {
            layer: Some(layer),
            op: Op::Observe { projection: operator_input(weights) },
            region: None,
        },
    );
    with_step_when(
        with_operator(observed, layer, weights, pass).push(
            Step {
                layer: Some(layer),
                op: Op::MixNorm { quantize: fuses_mix_norm(weights, pass) },
                region: own_region(pass.instruments.profile, ProfileRegion::ResidualNorm),
            },
        ),
        pass.instruments.capture,
        Step {
            layer: Some(layer),
            op: Op::Capture { point: CapturePoint::PostMixerResidual },
            region: None,
        },
    )
}

/// The plan with all steps of one layer.
pub open spec fn with_layer(plan: Seq<Step>, weights: WeightsView, index: int, pass: Pass) -> Seq<
    Step,
> {
    let layer = index as usize;
    let own = weights.layers[index];
    let last = index + 1 == weights.layers.len();
    with_step_when(
        with_feed_forward(with_mixer(plan, layer, own, pass), layer, own, pass).push(
            Step {
                layer: Some(layer),
                op: Op::NextNorm { last, quantize: last && fuses_final_norm(weights, pass) },
                region: own_region(pass.instruments.profile, ProfileRegion::ResidualNorm),
            },
        ),
        pass.instruments.capture,
        Step {
            layer: Some(layer),
            op: Op::Capture { point: CapturePoint::PostFfnResidual },
            region: None,
        },
    )
}

/// All steps up to layer `upto`.
pub open spec fn body_steps(weights: WeightsView, pass: Pass, upto: int) -> Seq<Step>
    decreases upto,
{
    if upto <= 0 {
        seq![
            Step { layer: None, op: Op::Embed, region: None },
            Step {
                layer: None,
                op: Op::InitialNorm,
                region: own_region(pass.instruments.profile, ProfileRegion::ResidualNorm),
            },
        ]
    } else {
        with_layer(body_steps(weights, pass, upto - 1), weights, upto - 1, pass)
    }
}

/// The plan with the steps behind the last layer.
pub open spec fn with_head(plan: Seq<Step>, weights: WeightsView, pass: Pass) -> Seq<Step> {
    let captured = with_step_when(
        plan,
        pass.instruments.capture,
        Step { layer: None, op: Op::Capture { point: CapturePoint::FinalRmsNorm }, region: None },
    );
    let observed = with_step_when(
        captured,
        pass.instruments.calibration,
        Step { layer: None, op: Op::ObserveHeadInput, region: None },
    );
    let gathered = with_step_when(
        observed,
        pass.head == HeadRows::Gathered,
        Step { layer: None, op: Op::GatherRows, region: None },
    );
    with_step_when(
        gathered.push(
            Step {
                layer: None,
                op: Op::Head {
                    rows: pass.head,
                    route: route_of(
                        pass.use_fp8,
                        weights.embedding,
                        fuses_final_norm(weights, pass),
                    ),
                },
                region: own_region(pass.instruments.profile, ProfileRegion::LmHead),
            },
        ),
        pass.argmax,
        Step { layer: None, op: Op::Argmax, region: None },
    )
}

/// The whole pass.
pub open spec fn pass_steps(weights: WeightsView, pass: Pass) -> Seq<Step> {
    with_head(body_steps(weights, pass, weights.layers.len() as int), weights, pass)
}

fn push_qkv(plan: &mut Vec<Step>, layer: usize, weights: &AttentionWeights, pass: &Pass)
    ensures
        final(plan)@ == with_qkv(old(plan)@, layer, *weights, *pass),
{
    let region = region(
        pass.instruments.profile,
        ProfileRegion::Attention,
        ProfileRegion::AttnQkvProj,
    );
    match pass.attention.projection {
        QkvProjection::Separate => {
            plan.push(make_project(layer, Projection::Query, &weights.query, pass, false, region));
            plan.push(make_project(layer, Projection::Key, &weights.key, pass, false, region));
            plan.push(make_project(layer, Projection::Value, &weights.value, pass, false, region));
        },
        QkvProjection::Packed => {
            plan.push(Step { layer: Some(layer), op: Op::ProjectPackedQkv, region });
        },
    }
}

fn push_postprocess(plan: &mut Vec<Step>, layer: usize, pass: &Pass)
    ensures
        final(plan)@ == with_postprocess(old(plan)@, layer, *pass),
{
    let region = region(
        pass.instruments.profile,
        ProfileRegion::Attention,
        ProfileRegion::AttnPostprocess,
    );
    match pass.attention.postprocess {
        QkvPostprocess::Stepwise => {
            plan.push(Step { layer: Some(layer), op: Op::NormRopeWrite, region });
        },
        QkvPostprocess::Fused => {
            plan.push(Step { layer: Some(layer), op: Op::FusedNormRopeWrite, region });
        },
        QkvPostprocess::FusedPacked => {
            plan.push(Step { layer: Some(layer), op: Op::PackedNormRopeWrite, region });
        },
        QkvPostprocess::InAttention => {
            plan.push(Step { layer: Some(layer), op: Op::PostprocessInAttention, region });
        },
    }
}

fn push_attention(plan: &mut Vec<Step>, layer: usize, weights: &AttentionWeights, pass: &Pass)
    ensures
        final(plan)@ == with_attention(old(plan)@, layer, *weights, *pass),
{
    let mode = pass.instruments.profile;
    push_qkv(plan, layer, weights, pass);
    push_postprocess(plan, layer, pass);
    plan.push(
        Step {
            layer: Some(layer),
            op: Op::Attend { kernel: pass.attention.kernel },
            region: region(mode, ProfileRegion::Attention, ProfileRegion::AttnXqa),
        },
    );
    push_when(
        plan,
        pass.instruments.calibration,
        Step {
            layer: Some(layer),
            op: Op::Observe { projection: Projection::Output },
            region: enclosing(mode, ProfileRegion::Attention),
        },
    );
    plan.push(
        make_project(
            layer,
            Projection::Output,
            &weights.output,
            pass,
            false,
            region(mode, ProfileRegion::Attention, ProfileRegion::AttnOutProj),
        ),
    );
}

fn push_conv(plan: &mut Vec<Step>, layer: usize, weights: &ConvWeights, pass: &Pass)
    ensures
        final(plan)@ == with_conv(old(plan)@, layer, *weights, *pass),
{
    let mode = pass.instruments.profile;
    plan.push(
        make_project(
            layer,
            Projection::ConvInput,
            &weights.input,
            pass,
            false,
            region(mode, ProfileRegion::Conv, ProfileRegion::ConvInProj),
        ),
    );
    plan.push(
        Step {
            layer: Some(layer),
            op: Op::Convolve { conv: pass.conv },
            region: region(mode, ProfileRegion::Conv, ProfileRegion::ConvKernel),
        },
    );
    push_when(
        plan,
        pass.instruments.calibration,
        Step {
            layer: Some(layer),
            op: Op::Observe { projection: Projection::ConvOutput },
            region: enclosing(mode, ProfileRegion::Conv),
        },
    );
    plan.push(
        make_project(
            layer,
            Projection::ConvOutput,
            &weights.output,
            pass,
            false,
            region(mode, ProfileRegion::Conv, ProfileRegion::ConvOutProj),
        ),
    );
}

fn push_feed_forward(plan: &mut Vec<Step>, layer: usize, weights: &LayerWeights, pass: &Pass)
    ensures
        final(plan)@ == with_feed_forward(old(plan)@, layer, *weights, *pass),
{
    let mode = pass.instruments.profile;
    let quantized_input: bool = pass.fuse_norms && pass.use_fp8 && weights.gate_up.fp8.is_some();
    let quantized_activation: bool = pass.fuse_activation && pass.use_fp8
        && weights.down.fp8.is_some();
    push_when(
        plan,
        pass.instruments.calibration && !quantized_input,
        Step {
            layer: Some(layer),
            op: Op::Observe { projection: Projection::GateUp },
            region: enclosing(mode, ProfileRegion::Mlp),
        },
    );
    plan.push(
        make_project(
            layer,
            Projection::GateUp,
            &weights.gate_up,
            pass,
            quantized_input,
            region(mode, ProfileRegion::Mlp, ProfileRegion::MlpGateUpGemm),
        ),
    );
    plan.push(
        Step {
            layer: Some(layer),
            op: if quantized_activation {
                Op::ActivateQuantized
            } else {
                Op::Activate
            },
            region: region(mode, ProfileRegion::Mlp, ProfileRegion::MlpSilu),
        },
    );
    push_when(
        plan,
        pass.instruments.calibration,
        Step {
            layer: Some(layer),
            op: Op::Observe { projection: Projection::Down },
            region: enclosing(mode, ProfileRegion::Mlp),
        },
    );
    plan.push(
        make_project(
            layer,
            Projection::Down,
            &weights.down,
            pass,
            quantized_activation,
            region(mode, ProfileRegion::Mlp, ProfileRegion::MlpDownGemm),
        ),
    );
}

fn push_operator(plan: &mut Vec<Step>, layer: usize, weights: &LayerWeights, pass: &Pass)
    ensures
        final(plan)@ == with_operator(old(plan)@, layer, *weights, *pass),
{
    match &weights.operator {
        OperatorWeights::Attention(attention) => push_attention(plan, layer, attention, pass),
        OperatorWeights::Conv(conv) => push_conv(plan, layer, conv, pass),
    }
}

fn push_layer(plan: &mut Vec<Step>, weights: &Lfm2Weights, layer: usize, pass: &Pass)
    requires
        layer < weights@.layers.len(),
    ensures
        final(plan)@ == with_layer(old(plan)@, weights@, layer as int, *pass),
{
    let own = &weights.layers[layer];
    let mode = pass.instruments.profile;
    let last: bool = layer == weights.layers.len() - 1;
    let input = match own.operator {
        OperatorWeights::Attention(_) => Projection::Query,
        OperatorWeights::Conv(_) => Projection::ConvInput,
    };
    push_when(
        plan,
        pass.instruments.calibration,
        Step { layer: Some(layer), op: Op::Observe { projection: input }, region: None },
    );
    push_operator(plan, layer, own, pass);
    plan.push(
        Step {
            layer: Some(layer),
            op: Op::MixNorm {
                quantize: pass.fuse_norms && pass.use_fp8 && own.gate_up.fp8.is_some(),
            },
            region: region(mode, ProfileRegion::ResidualNorm, ProfileRegion::ResidualNorm),
        },
    );
    push_when(
        plan,
        pass.instruments.capture,
        Step {
            layer: Some(layer),
            op: Op::Capture { point: CapturePoint::PostMixerResidual },
            region: None,
        },
    );
    push_feed_forward(plan, layer, own, pass);
    plan.push(
        Step {
            layer: Some(layer),
            op: Op::NextNorm {
                last,
                quantize: last && pass.fuse_norms && pass.use_fp8
                    && weights.embedding.fp8.is_some(),
            },
            region: region(mode, ProfileRegion::ResidualNorm, ProfileRegion::ResidualNorm),
        },
    );
    push_when(
        plan,
        pass.instruments.capture,
        Step {
            layer: Some(layer),
            op: Op::Capture { point: CapturePoint::PostFfnResidual },
            region: None,
        },
    );
}

/// The first `upto` layers of a cache keep what the layers' operators need.
pub open spec fn layers_fit(weights: WeightsView, kinds: Seq<LayerKind>, upto: int) -> bool {
    forall|i: int|
        0 <= i < upto ==> (#[trigger] kinds[i]).fits(weights.layers[i].operator)
}

/// `layer` is the first whose cache keeps something else.
pub open spec fn is_first_mismatch(weights: WeightsView, kinds: Seq<LayerKind>, layer: int) -> bool {
    &&& 0 <= layer < kinds.len()
    &&& !kinds[layer].fits(weights.layers[layer].operator)
    &&& layers_fit(weights, kinds, layer)
}

/// Plans a pass over a cache that keeps the given kinds of state.
pub fn plan_pass(weights: &Lfm2Weights, kinds: &Vec<LayerKind>, pass: &Pass) -> (r: Result<
    Vec<Step>,
    LayerMismatch,
>)
    requires
        kinds@.len() == weights@.layers.len(),
    ensures
        match r {
            Ok(plan) => layers_fit(weights@, kinds@, kinds@.len() as int) && plan@ == pass_steps(
                weights@,
                *pass,
            ),
            Err(e) => is_first_mismatch(weights@, kinds@, e.layer as int),
        },
{
    let mut plan: Vec<Step> = Vec::new();
    plan.push(Step { layer: None, op: Op::Embed, region: None });
    plan.push(
        Step {
            layer: None,
            op: Op::InitialNorm,
            region: region(
                pass.instruments.profile,
                ProfileRegion::ResidualNorm,
                ProfileRegion::ResidualNorm,
            ),
        },
    );
    assert(plan@ =~= body_steps(weights@, *pass, 0));
    let mut layer: usize = 0;
    while layer < weights.layers.len()
        invariant
            layer <= weights@.layers.len(),
            kinds@.len() == weights@.layers.len(),
            plan@ == body_steps(weights@, *pass, layer as int),
            forall|i: int|
                0 <= i < layer ==> (#[trigger] kinds@[i]).fits(weights@.layers[i].operator),
        decreases weights@.layers.len() - layer,
    {
        let fits: bool = match (kinds[layer], weights.layers[layer].operator) {
            (LayerKind::Conv, OperatorWeights::Conv(_)) => true,
            (LayerKind::Attention, OperatorWeights::Attention(_)) => true,
            _ => false,
        };
        if !fits {
            return Err(LayerMismatch { layer });
        }
        push_layer(&mut plan, weights, layer, pass);
        layer = layer + 1;
    }
    push_when(
        &mut plan,
        pass.instruments.capture,
        Step { layer: None, op: Op::Capture { point: CapturePoint::FinalRmsNorm }, region: None },
    );
    push_when(
        &mut plan,
        pass.instruments.calibration,
        Step { layer: None, op: Op::ObserveHeadInput, region: None },
    );
    let gathered: bool = match pass.head {
        HeadRows::Gathered => true,
        _ => false,
    };
    push_when(&mut plan, gathered, Step { layer: None, op: Op::GatherRows, region: None });
    let quantized: bool = pass.fuse_norms && pass.use_fp8 && weights.embedding.fp8.is_some();
    plan.push(
        Step {
            layer: None,
            op: Op::Head {
                rows: pass.head,
                route: linear_dispatch(pass.use_fp8, &weights.embedding, quantized),
            },
            region: region(
                pass.instruments.profile,
                ProfileRegion::LmHead,
                ProfileRegion::LmHead,
            ),
        },
    );
    push_when(&mut plan, pass.argmax, Step { layer: None, op: Op::Argmax, region: None });
    Ok(plan)
}

/// The first attention layer without a packed projection weight, for a pass that needs
/// them. `packed[i]` says whether layer `i` has one.
pub fn missing_packed_weight(weights: &Lfm2Weights, packed: &Vec<bool>, pass: &Pass) -> (r: Option<
    usize,
>)
    requires
        packed@.len() == weights@.layers.len(),
    ensures
        match r {
            Some(layer) => {
                &&& pass.attention.projection == QkvProjection::Packed
                &&& layer < packed@.len()
                &&& lacks_packed(weights@, packed@, layer as int)
                &&& forall|i: int| 0 <= i < layer ==> !#[trigger] lacks_packed(weights@, packed@, i)
            },
            None => pass.attention.projection == QkvProjection::Packed ==> forall|i: int|
                0 <= i < packed@.len() ==> !#[trigger] lacks_packed(weights@, packed@, i),
        },
{
    match pass.attention.projection {
        QkvProjection::Separate => {
            return None;
        },
        QkvProjection::Packed => {},
    }
    let mut layer: usize = 0;
    while layer < weights.layers.len()
        invariant
            layer <= weights@.layers.len(),
            packed@.len() == weights@.layers.len(),
            pass.attention.projection == QkvProjection::Packed,
            forall|i: int| 0 <= i < layer ==> !#[trigger] lacks_packed(weights@, packed@, i),
        decreases weights@.layers.len() - layer,
    {
        let attention: bool = match weights.layers[layer].operator {
            OperatorWeights::Attention(_) => true,
            OperatorWeights::Conv(_) => false,
        };
        if attention && !packed[layer] {
            assert(lacks_packed(weights@, packed@, layer as int));
            return Some(layer);
        }
        layer = layer + 1;
    }
    None
}

pub open spec fn lacks_packed(weights: WeightsView, packed: Seq<bool>, layer: int) -> bool {
    weights.layers[layer].operator is Attention && !packed[layer]
}

/// The pass over `tokens` tokens of one sequence, behind `start` cached ones.
///
/// `one_kernel` says whether the fused kernel is the faster one for this context.
pub open spec fn sequence_pass_of(
    model: Lfm2Model,
    start: usize,
    tokens: usize,
    one_kernel: bool,
    instruments: Instruments,
) -> Pass {
    let contiguous = start == 0 && tokens > 1;
    Pass {
        use_fp8: model.decode_fp8_enabled && start > 0 && tokens == 1,
        fuse_norms: model.fused_rms_fp8_enabled && !instruments.calibration
            && !instruments.capture,
        fuse_activation: false,
        instruments,
        attention: AttentionRoute {
            projection: QkvProjection::Separate,
            postprocess: if contiguous {
                QkvPostprocess::Stepwise
            } else if one_kernel {
                QkvPostprocess::InAttention
            } else {
                QkvPostprocess::Fused
            },
            kernel: if contiguous {
                AttentionKernel::Prefill
            } else if one_kernel {
                AttentionKernel::FusedPaged
            } else {
                AttentionKernel::PagedFast
            },
        },
        conv: ConvKernel::Single,
        head: HeadRows::Last,
        argmax: false,
    }
}

/// The pass that evaluates draft tokens and can be rolled back.
pub open spec fn speculative_pass_of(model: Lfm2Model, start: usize, tokens: usize) -> Pass {
    Pass {
        use_fp8: model.decode_fp8_enabled && start > 0 && tokens <= model.maximum_fp8_batch,
        fuse_norms: model.fused_rms_fp8_enabled,
        fuse_activation: false,
        instruments: unwatched(),
        attention: AttentionRoute {
            projection: QkvProjection::Separate,
            postprocess: QkvPostprocess::Fused,
            kernel: AttentionKernel::PagedFast,
        },
        conv: ConvKernel::WithHistory,
        head: HeadRows::All,
        argmax: false,
    }
}

pub open spec fn unwatched() -> Instruments {
    Instruments { profile: DecodeProfileMode::Off, calibration: false, capture: false }
}

/// What decides the attention route of a batch.
#[derive(Clone, Copy, Debug, PartialEq, Eq, Structural)]
pub struct BatchShape {
    pub tokens: usize,
    /// Some row belongs to a prompt that is still being prefilled.
    pub prefill_rows: bool,
    /// Every segment is one token.
    pub decode_only: bool,
    /// The fused kernel is the faster one for this batch.
    pub one_kernel: bool,
    pub contiguous_prefill: bool,
    pub segmented_prefill: bool,
    pub longest_segment: usize,
    pub flash_prefill: bool,
}

/// The shape of a batch that was entered in a cache. Every segment is one token exactly if
/// there are as many segments as tokens.
pub open spec fn shape_of(
    batch: RaggedView,
    cache: BatchModelCache,
    prefill_rows: bool,
    one_kernel: bool,
    flash_prefill: bool,
) -> BatchShape {
    BatchShape {
        tokens: batch.token_ids.len() as usize,
        prefill_rows,
        decode_only: batch.segment_slots.len() == batch.token_ids.len()
            && batch.segment_offsets.len() == batch.token_ids.len() + 1,
        one_kernel,
        contiguous_prefill: cache.is_contiguous_prefill,
        segmented_prefill: cache.is_segmented_prefill,
        longest_segment: cache.max_segment_tokens,
        flash_prefill,
    }
}

/// Describes a batch that was entered in a cache. `one_kernel` and `flash_prefill` are the
/// device's word on its kernels.
pub fn batch_shape(
    batch: &RaggedBatch,
    cache: &BatchModelCache,
    prefill_rows: bool,
    one_kernel: bool,
    flash_prefill: bool,
) -> (r: BatchShape)
    ensures
        r.tokens == batch@.token_ids.len(),
        r.decode_only == (batch@.segment_slots.len() == r.tokens && batch@.segment_offsets.len()
            == r.tokens + 1),
        r == shape_of(batch@, *cache, prefill_rows, one_kernel, flash_prefill),
{
    let tokens: usize = batch.token_ids.len();
    BatchShape {
        tokens,
        prefill_rows,
        decode_only: batch.segment_slots.len() == tokens && batch.segment_offsets.len() > 0
            && batch.segment_offsets.len() - 1 == tokens,
        one_kernel,
        contiguous_prefill: cache.is_contiguous_prefill,
        segmented_prefill: cache.is_segmented_prefill,
        longest_segment: cache.max_segment_tokens,
        flash_prefill,
    }
}

pub open spec fn batch_route(shape: BatchShape) -> AttentionRoute {
    AttentionRoute {
        projection: QkvProjection::Separate,
        postprocess: if shape.decode_only && shape.one_kernel {
            QkvPostprocess::InAttention
        } else if shape.decode_only {
            QkvPostprocess::Fused
        } else {
            QkvPostprocess::Stepwise
        },
        kernel: if shape.decode_only && shape.one_kernel {
            AttentionKernel::FusedRaggedPaged
        } else if shape.decode_only {
            AttentionKernel::RaggedFast
        } else if shape.contiguous_prefill {
            AttentionKernel::Prefill
        } else if shape.segmented_prefill && shape.flash_prefill {
            AttentionKernel::SegmentedPrefill { longest: shape.longest_segment }
        } else {
            AttentionKernel::Hybrid
        },
    }
}

/// The pass over a batch of requests. Prompts are prefilled in bf16.
pub open spec fn batch_pass_of(model: Lfm2Model, shape: BatchShape) -> Pass {
    Pass {
        use_fp8: model.decode_fp8_enabled && !shape.prefill_rows && shape.tokens
            <= model.maximum_fp8_batch,
        fuse_norms: false,
        fuse_activation: false,
        instruments: unwatched(),
        attention: batch_route(shape),
        conv: ConvKernel::Segmented,
        head: HeadRows::Gathered,
        argmax: false,
    }
}

/// The batch pass with packed projections: only where a batch decodes in bf16 with separate
/// kernels.
pub open spec fn packed_pass_of(model: Lfm2Model, shape: BatchShape) -> Pass {
    let pass = batch_pass_of(model, shape);
    if shape.decode_only && !shape.one_kernel && !pass.use_fp8 {
        Pass {
            attention: AttentionRoute {
                projection: QkvProjection::Packed,
                postprocess: QkvPostprocess::FusedPacked,
                kernel: AttentionKernel::RaggedFast,
            },
            ..pass
        }
    } else {
        pass
    }
}

/// The pass of the decode executor, which also picks the tokens. `splits` is how many ways
/// the context is split, one for not at all.
pub open spec fn executor_pass_of(
    model: Lfm2Model,
    prefill_rows: bool,
    one_kernel: bool,
    splits: usize,
) -> Pass {
    Pass {
        use_fp8: model.decode_fp8_enabled && !prefill_rows,
        fuse_norms: false,
        fuse_activation: true,
        instruments: unwatched(),
        attention: AttentionRoute {
            projection: QkvProjection::Separate,
            postprocess: if one_kernel {
                QkvPostprocess::InAttention
            } else {
                QkvPostprocess::Fused
            },
            kernel: if one_kernel {
                AttentionKernel::FusedRaggedPaged
            } else if splits > 1 {
                AttentionKernel::RaggedSplit { splits }
            } else {
                AttentionKernel::RaggedFast
            },
        },
        conv: ConvKernel::Segmented,
        head: HeadRows::All,
        argmax: true,
    }
}

impl Lfm2Model {
    /// Decides the pass over tokens of one sequence.
    pub fn sequence_pass(
        &self,
        start: usize,
        tokens: usize,
        one_kernel: bool,
        instruments: Instruments,
    ) -> (r: Pass)
        ensures
            r == sequence_pass_of(*self, start, tokens, one_kernel, instruments),
    {
        let contiguous: bool = start == 0 && tokens > 1;
        let attention = if contiguous {
            AttentionRoute {
                projection: QkvProjection::Separate,
                postprocess: QkvPostprocess::Stepwise,
                kernel: AttentionKernel::Prefill,
            }
        } else if one_kernel {
            AttentionRoute {
                projection: QkvProjection::Separate,
                postprocess: QkvPostprocess::InAttention,
                kernel: AttentionKernel::FusedPaged,
            }
        } else {
            AttentionRoute {
                projection: QkvProjection::Separate,
                postprocess: QkvPostprocess::Fused,
                kernel: AttentionKernel::PagedFast,
            }
        };
        Pass {
            use_fp8: self.decode_fp8_enabled && start > 0 && tokens == 1,
            fuse_norms: self.fused_rms_fp8_enabled && !instruments.calibration
                && !instruments.capture,
            fuse_activation: false,
            instruments,
            attention,
            conv: ConvKernel::Single,
            head: HeadRows::Last,
            argmax: false,
        }
    }

    /// Decides the pass over draft tokens.
    pub fn speculative_pass(&self, start: usize, tokens: usize) -> (r: Pass)
        ensures
            r == speculative_pass_of(*self, start, tokens),
    {
        Pass {
            use_fp8: self.decode_fp8_enabled && start > 0 && tokens <= self.maximum_fp8_batch,
            fuse_norms: self.fused_rms_fp8_enabled,
            fuse_activation: false,
            instruments: Instruments {
                profile: DecodeProfileMode::Off,
                calibration: false,
                capture: false,
            },
            attention: AttentionRoute {
                projection: QkvProjection::Separate,
                postprocess: QkvPostprocess::Fused,
                kernel: AttentionKernel::PagedFast,
            },
            conv: ConvKernel::WithHistory,
            head: HeadRows::All,
            argmax: false,
        }
    }

    /// Decides the pass over a batch of requests.
    pub fn batch_pass(&self, shape: BatchShape) -> (r: Pass)
        ensures
            r == batch_pass_of(*self, shape),
    {
        let postprocess = if shape.decode_only && shape.one_kernel {
            QkvPostprocess::InAttention
        } else if shape.decode_only {
            QkvPostprocess::Fused
        } else {
            QkvPostprocess::Stepwise
        };
        let kernel = if shape.decode_only && shape.one_kernel {
            AttentionKernel::FusedRaggedPaged
        } else if shape.decode_only {
            AttentionKernel::RaggedFast
        } else if shape.contiguous_prefill {
            AttentionKernel::Prefill
        } else if shape.segmented_prefill && shape.flash_prefill {
            AttentionKernel::SegmentedPrefill { longest: shape.longest_segment }
        } else {
            AttentionKernel::Hybrid
        };
        Pass {
            use_fp8: self.decode_fp8_enabled && !shape.prefill_rows && shape.tokens
                <= self.maximum_fp8_batch,
            fuse_norms: false,
            fuse_activation: false,
            instruments: Instruments {
                profile: DecodeProfileMode::Off,
                calibration: false,
                capture: false,
            },
            attention: AttentionRoute { projection: QkvProjection::Separate, postprocess, kernel },
            conv: ConvKernel::Segmented,
            head: HeadRows::Gathered,
            argmax: false,
        }
    }

    /// Decides the batch pass with packed projections.
    pub fn packed_pass(&self, shape: BatchShape) -> (r: Pass)
        ensures
            r == packed_pass_of(*self, shape),
    {
        let mut pass = self.batch_pass(shape);
        if shape.decode_only && !shape.one_kernel && !pass.use_fp8 {
            pass.attention =
            AttentionRoute {
                projection: QkvProjection::Packed,
                postprocess: QkvPostprocess::FusedPacked,
                kernel: AttentionKernel::RaggedFast,
            };
        }
        pass
    }

    /// Decides the pass of the decode executor.
    pub fn executor_pass(&self, prefill_rows: bool, one_kernel: bool, splits: usize) -> (r: Pass)
        ensures
            r == executor_pass_of(*self, prefill_rows, one_kernel, splits),
    {
        let postprocess = if one_kernel {
            QkvPostprocess::InAttention
        } else {
            QkvPostprocess::Fused
        };
        let kernel = if one_kernel {
            AttentionKernel::FusedRaggedPaged
        } else if splits > 1 {
            AttentionKernel::RaggedSplit { splits }
        } else {
            AttentionKernel::RaggedFast
        };
        Pass {
            use_fp8: self.decode_fp8_enabled && !prefill_rows,
            fuse_norms: false,
            fuse_activation: true,
            instruments: Instruments {
                profile: DecodeProfileMode::Off,
                calibration: false,
                capture: false,
            },
            attention: AttentionRoute { projection: QkvProjection::Separate, postprocess, kernel },
            conv: ConvKernel::Segmented,
            head: HeadRows::All,
            argmax: true,
        }
    }
}

/// A step that computes in bf16 only.
pub open spec fn is_bf16_step(step: Step) -> bool {
    match step.op {
        Op::Project { route, .. } => route == LinearRoute::Bf16,
        Op::Head { route, .. } => route == LinearRoute::Bf16,
        Op::MixNorm { quantize } => !quantize,
        Op::NextNorm { quantize, .. } => !quantize,
        Op::ActivateQuantized => false,
        _ => true,
    }
}

pub open spec fn all_bf16(steps: Seq<Step>) -> bool {
    forall|i: int| 0 <= i < steps.len() ==> is_bf16_step(#[trigger] steps[i])
}

proof fn lemma_layer_stays_bf16(plan: Seq<Step>, weights: WeightsView, index: int, pass: Pass)
    requires
        !pass.use_fp8,
        all_bf16(plan),
    ensures
        all_bf16(with_layer(plan, weights, index, pass)),
{
    let layer = index as usize;
    let own = weights.layers[index];
    let mixed = with_mixer(plan, layer, own, pass);
    assert(all_bf16(mixed)) by {
        if let OperatorWeights::Attention(attention) = own.operator {
            let observed = with_step_when(
                plan,
                pass.instruments.calibration,
                Step {
                    layer: Some(layer),
                    op: Op::Observe { projection: operator_input(own) },
                    region: None,
                },
            );
            assert(all_bf16(with_qkv(observed, layer, attention, pass)));
        }
    }
    assert(all_bf16(with_feed_forward(mixed, layer, own, pass)));
}

proof fn lemma_body_is_bf16(weights: WeightsView, pass: Pass, upto: int)
    requires
        !pass.use_fp8,
    ensures
        all_bf16(body_steps(weights, pass, upto)),
    decreases upto,
{
    if upto > 0 {
        lemma_body_is_bf16(weights, pass, upto - 1);
        lemma_layer_stays_bf16(body_steps(weights, pass, upto - 1), weights, upto - 1, pass);
    }
}

/// Prefill runs in bf16: whatever is installed and switched on, no step quantises anything
/// or multiplies in fp8. That holds of every pass over an empty cache or over more than one
/// token of a sequence, and of every batch, by whichever route it runs, that has a row of a
/// prompt still being prefilled.
pub proof fn prefill_runs_in_bf16(
    model: Lfm2Model,
    start: usize,
    tokens: usize,
    one_kernel: bool,
    instruments: Instruments,
    shape: BatchShape,
    splits: usize,
)
    ensures
        start == 0 || tokens > 1 ==> all_bf16(
            pass_steps(
                model.weights@,
                sequence_pass_of(model, start, tokens, one_kernel, instruments),
            ),
        ),
        shape.prefill_rows ==> {
            &&& all_bf16(pass_steps(model.weights@, batch_pass_of(model, shape)))
            &&& all_bf16(pass_steps(model.weights@, packed_pass_of(model, shape)))
            &&& all_bf16(
                pass_steps(model.weights@, executor_pass_of(model, true, one_kernel, splits)),
            )
        },
{
    if start == 0 || tokens > 1 {
        let pass = sequence_pass_of(model, start, tokens, one_kernel, instruments);
        no_fp8_step_without_fp8(model.weights@, pass);
    }
    if shape.prefill_rows {
        no_fp8_step_without_fp8(model.weights@, batch_pass_of(model, shape));
        no_fp8_step_without_fp8(model.weights@, packed_pass_of(model, shape));
        no_fp8_step_without_fp8(
            model.weights@,
            executor_pass_of(model, true, one_kernel, splits),
        );
    }
}

/// A pass without fp8 has no fp8 step.
pub proof fn no_fp8_step_without_fp8(weights: WeightsView, pass: Pass)
    requires
        !pass.use_fp8,
    ensures
        all_bf16(pass_steps(weights, pass)),
{
    lemma_body_is_bf16(weights, pass, weights.layers.len() as int);
}

/// The steps without their timing.
pub open spec fn untimed(steps: Seq<Step>) -> Seq<Step> {
    Seq::new(steps.len(), |i: int| Step { region: None, ..steps[i] })
}

pub open spec fn without_profile(pass: Pass) -> Pass {
    Pass {
        instruments: Instruments { profile: DecodeProfileMode::Off, ..pass.instruments },
        ..pass
    }
}

broadcast proof fn lemma_untimed_push(plan: Seq<Step>, step: Step)
    ensures
        #[trigger] untimed(plan.push(step)) == untimed(plan).push(Step { region: None, ..step }),
{
    assert(untimed(plan.push(step)) =~= untimed(plan).push(Step { region: None, ..step }));
}

proof fn lemma_untimed_mixer(plan: Seq<Step>, layer: usize, own: LayerWeights, pass: Pass)
    ensures
        untimed(with_mixer(plan, layer, own, pass)) == with_mixer(
            untimed(plan),
            layer,
            own,
            without_profile(pass),
        ),
{
    broadcast use lemma_untimed_push;

}

proof fn lemma_untimed_feed_forward(plan: Seq<Step>, layer: usize, own: LayerWeights, pass: Pass)
    ensures
        untimed(with_feed_forward(plan, layer, own, pass)) == with_feed_forward(
            untimed(plan),
            layer,
            own,
            without_profile(pass),
        ),
{
    broadcast use lemma_untimed_push;

}

proof fn lemma_untimed_body(weights: WeightsView, pass: Pass, upto: int)
    ensures
        untimed(body_steps(weights, pass, upto)) == body_steps(
            weights,
            without_profile(pass),
            upto,
        ),
    decreases upto,
{
    broadcast use lemma_untimed_push;

    if upto > 0 {
        let before = body_steps(weights, pass, upto - 1);
        let layer = (upto - 1) as usize;
        let own = weights.layers[upto - 1];
        lemma_untimed_body(weights, pass, upto - 1);
        lemma_untimed_mixer(before, layer, own, pass);
        lemma_untimed_feed_forward(with_mixer(before, layer, own, pass), layer, own, pass);
    } else {
        assert(untimed(body_steps(weights, pass, upto)) =~= body_steps(
            weights,
            without_profile(pass),
            upto,
        ));
    }
}

/// Profiling only adds timing: it changes no step and no order of steps.
pub proof fn profiling_changes_no_step(weights: WeightsView, pass: Pass)
    ensures
        untimed(pass_steps(weights, pass)) == pass_steps(weights, without_profile(pass)),
{
    broadcast use lemma_untimed_push;

    lemma_untimed_body(weights, pass, weights.layers.len() as int);
}

/// The packed route differs from the plain one only where a batch decodes in bf16 outside
/// the fused kernel.
pub proof fn packed_route_is_confined(model: Lfm2Model, shape: BatchShape)
    ensures
        packed_pass_of(model, shape) != batch_pass_of(model, shape) ==> shape.decode_only
            && !shape.one_kernel && !batch_pass_of(model, shape).use_fp8,
        packed_pass_of(model, shape).use_fp8 == batch_pass_of(model, shape).use_fp8,
{
}

/// What a step computes, whichever kernel computes it: quantising an input in the kernel
/// before or in the product itself, fusing the work before attention into its kernel,
/// splitting a context, and taking the output rows in row order make no difference.
pub open spec fn computed_by(step: Step) -> Option<Step> {
    let op = match step.op {
        Op::Project { projection, route: LinearRoute::Fp8Prequantized } => Some(
            Op::Project { projection, route: LinearRoute::Fp8 },
        ),
        Op::Head { rows: _, route: LinearRoute::Fp8Prequantized } => Some(
            Op::Head { rows: HeadRows::All, route: LinearRoute::Fp8 },
        ),
        Op::Head { rows: _, route } => Some(Op::Head { rows: HeadRows::All, route }),
        Op::ActivateQuantized => Some(Op::Activate),
        Op::FusedNormRopeWrite => Some(Op::NormRopeWrite),
        Op::PostprocessInAttention => Some(Op::NormRopeWrite),
        Op::Attend { kernel: AttentionKernel::FusedRaggedPaged } => Some(
            Op::Attend { kernel: AttentionKernel::RaggedFast },
        ),
        Op::Attend { kernel: AttentionKernel::RaggedSplit { splits: _ } } => Some(
            Op::Attend { kernel: AttentionKernel::RaggedFast },
        ),
        Op::GatherRows => None,
        Op::Argmax => None,
        op => Some(op),
    };
    match op {
        Some(op) => Some(Step { op, ..step }),
        None => None,
    }
}

/// What a plan computes, step by step.
pub open spec fn computation(steps: Seq<Step>) -> Seq<Step>
    decreases steps.len(),
{
    if steps.len() == 0 {
        Seq::empty()
    } else {
        match computed_by(steps.last()) {
            Some(step) => computation(steps.drop_last()).push(step),
            None => computation(steps.drop_last()),
        }
    }
}

broadcast proof fn lemma_computation_push(plan: Seq<Step>, step: Step)
    ensures
        #[trigger] computation(plan.push(step)) == (match computed_by(step) {
            Some(computed) => computation(plan).push(computed),
            None => computation(plan),
        }),
{
    assert(plan.push(step).drop_last() =~= plan);
}

/// Two passes that differ only in how a batch of decoding requests is computed.
spec fn compute_alike(a: Pass, b: Pass) -> bool {
    &&& a.use_fp8 == b.use_fp8
    &&& !a.fuse_norms && !b.fuse_norms
    &&& a.instruments == unwatched() && b.instruments == unwatched()
    &&& a.attention.projection == QkvProjection::Separate
    &&& b.attention.projection == QkvProjection::Separate
    &&& is_decode_route(a.attention) && is_decode_route(b.attention)
    &&& a.conv == b.conv
}

spec fn is_decode_route(route: AttentionRoute) -> bool {
    &&& route.postprocess == QkvPostprocess::Fused || route.postprocess
        == QkvPostprocess::InAttention
    &&& route.kernel is FusedRaggedPaged || route.kernel is RaggedFast || route.kernel is RaggedSplit
}

proof fn lemma_mixers_compute_alike(
    x: Seq<Step>,
    y: Seq<Step>,
    layer: usize,
    own: LayerWeights,
    a: Pass,
    b: Pass,
)
    requires
        computation(x) == computation(y),
        compute_alike(a, b),
    ensures
        computation(with_mixer(x, layer, own, a)) == computation(with_mixer(y, layer, own, b)),
{
    broadcast use lemma_computation_push;

}

proof fn lemma_feed_forwards_compute_alike(
    x: Seq<Step>,
    y: Seq<Step>,
    layer: usize,
    own: LayerWeights,
    a: Pass,
    b: Pass,
)
    requires
        computation(x) == computation(y),
        compute_alike(a, b),
    ensures
        computation(with_feed_forward(x, layer, own, a)) == computation(
            with_feed_forward(y, layer, own, b),
        ),
{
    broadcast use lemma_computation_push;

}

proof fn lemma_bodies_compute_alike(weights: WeightsView, a: Pass, b: Pass, upto: int)
    requires
        compute_alike(a, b),
    ensures
        computation(body_steps(weights, a, upto)) == computation(body_steps(weights, b, upto)),
    decreases upto,
{
    broadcast use lemma_computation_push;

    if upto > 0 {
        let x = body_steps(weights, a, upto - 1);
        let y = body_steps(weights, b, upto - 1);
        let layer = (upto - 1) as usize;
        let own = weights.layers[upto - 1];
        lemma_bodies_compute_alike(weights, a, b, upto - 1);
        lemma_mixers_compute_alike(x, y, layer, own, a, b);
        lemma_feed_forwards_compute_alike(
            with_mixer(x, layer, own, a),
            with_mixer(y, layer, own, b),
            layer,
            own,
            a,
            b,
        );
    } else {
        assert(body_steps(weights, a, upto) =~= body_steps(weights, b, upto));
    }
}

/// The decode executor computes what the batch pass computes for the same decode batch, and
/// then picks the tokens: layer by layer the same products in the same precision on the same
/// inputs, and the head on every row. How a kernel rounds its sums is the device's.
pub proof fn executor_computes_the_batch_pass(model: Lfm2Model, shape: BatchShape, splits: usize)
    requires
        shape.decode_only,
        model.decode_fp8_enabled ==> shape.tokens <= model.maximum_fp8_batch,
    ensures
        ({
            let executor = pass_steps(
                model.weights@,
                executor_pass_of(model, shape.prefill_rows, shape.one_kernel, splits),
            );
            let batch = pass_steps(model.weights@, batch_pass_of(model, shape));
            &&& computation(executor) == computation(batch)
            &&& executor.last().op == Op::Argmax
        }),
{
    broadcast use lemma_computation_push;

    lemma_bodies_compute_alike(
        model.weights@,
        executor_pass_of(model, shape.prefill_rows, shape.one_kernel, splits),
        batch_pass_of(model, shape),
        model.weights@.layers.len() as int,
    );
}

/// Serving observes nothing: its passes carry no instruments.
pub proof fn serving_carries_no_instruments(
    model: Lfm2Model,
    shape: BatchShape,
    prefill_rows: bool,
    one_kernel: bool,
    splits: usize,
)
    ensures
        ({
            let none = Instruments {
                profile: DecodeProfileMode::Off,
                calibration: false,
                capture: false,
            };
            &&& batch_pass_of(model, shape).instruments == none
            &&& packed_pass_of(model, shape).instruments == none
            &&& executor_pass_of(model, prefill_rows, one_kernel, splits).instruments == none
        }),
{
}

/// No step of the plan reads values back for calibration or evaluation.
pub open spec fn observes_nothing(steps: Seq<Step>) -> bool {
    forall|i: int|
        0 <= i < steps.len() ==> !((#[trigger] steps[i]).op is Observe)
            && !(steps[i].op is ObserveHeadInput) && !(steps[i].op is Capture)
}

broadcast proof fn lemma_observes_nothing_push(plan: Seq<Step>, step: Step)
    requires
        observes_nothing(plan),
        !(step.op is Observe),
        !(step.op is ObserveHeadInput),
        !(step.op is Capture),
    ensures
        #[trigger] observes_nothing(plan.push(step)),
{
}

proof fn lemma_layer_observes_nothing(plan: Seq<Step>, layer: usize, own: LayerWeights, pass: Pass)
    requires
        observes_nothing(plan),
        !pass.instruments.calibration,
        !pass.instruments.capture,
    ensures
        observes_nothing(with_feed_forward(with_mixer(plan, layer, own, pass), layer, own, pass)),
{
    broadcast use lemma_observes_nothing_push;

    assert(observes_nothing(with_mixer(plan, layer, own, pass)));
}

proof fn lemma_body_observes_nothing(weights: WeightsView, pass: Pass, upto: int)
    requires
        !pass.instruments.calibration,
        !pass.instruments.capture,
    ensures
        observes_nothing(body_steps(weights, pass, upto)),
    decreases upto,
{
    broadcast use lemma_observes_nothing_push;

    if upto > 0 {
        lemma_body_observes_nothing(weights, pass, upto - 1);
        lemma_layer_observes_nothing(
            body_steps(weights, pass, upto - 1),
            (upto - 1) as usize,
            weights.layers[upto - 1],
            pass,
        );
    }
}

/// Without instruments no step reads values back: the production path neither calibrates
/// nor evaluates.
pub proof fn production_reads_nothing_back(weights: WeightsView, pass: Pass)
    requires
        !pass.instruments.calibration,
        !pass.instruments.capture,
    ensures
        observes_nothing(pass_steps(weights, pass)),
{
    broadcast use lemma_observes_nothing_push;

    lemma_body_observes_nothing(weights, pass, weights.layers.len() as int);
}

pub open spec fn is_observation(step: Step) -> bool {
    step.op is Observe || step.op is ObserveHeadInput
}

/// How many steps observe the input of a product.
pub open spec fn observation_count(steps: Seq<Step>) -> int
    decreases steps.len(),
{
    if steps.len() == 0 {
        0
    } else {
        observation_count(steps.drop_last()) + if is_observation(steps.last()) {
            1int
        } else {
            0int
        }
    }
}

/// How many steps capture hidden states.
pub open spec fn capture_count(steps: Seq<Step>) -> int
    decreases steps.len(),
{
    if steps.len() == 0 {
        0
    } else {
        capture_count(steps.drop_last()) + if steps.last().op is Capture {
            1int
        } else {
            0int
        }
    }
}

broadcast proof fn lemma_observation_count_push(plan: Seq<Step>, step: Step)
    ensures
        #[trigger] observation_count(plan.push(step)) == observation_count(plan)
            + if is_observation(step) {
            1int
        } else {
            0int
        },
{
    assert(plan.push(step).drop_last() =~= plan);
}

broadcast proof fn lemma_capture_count_push(plan: Seq<Step>, step: Step)
    ensures
        #[trigger] capture_count(plan.push(step)) == capture_count(plan) + if step.op is Capture {
            1int
        } else {
            0int
        },
{
    assert(plan.push(step).drop_last() =~= plan);
}

proof fn lemma_body_readbacks(weights: WeightsView, pass: Pass, upto: int)
    requires
        !pass.fuse_norms,
        upto >= 0,
    ensures
        pass.instruments.calibration ==> observation_count(body_steps(weights, pass, upto)) == 4
            * upto,
        pass.instruments.capture ==> capture_count(body_steps(weights, pass, upto)) == 2 * upto,
    decreases upto,
{
    broadcast use lemma_observation_count_push;
    broadcast use lemma_capture_count_push;

    if upto > 0 {
        lemma_body_readbacks(weights, pass, upto - 1);
        let before = body_steps(weights, pass, upto - 1);
        let own = weights.layers[upto - 1];
        let layer = (upto - 1) as usize;
        lemma_mixer_readbacks(before, layer, own, pass);
        lemma_feed_forward_readbacks(with_mixer(before, layer, own, pass), layer, own, pass);
    } else {
        reveal_with_fuel(observation_count, 4);
        reveal_with_fuel(capture_count, 4);
    }
}

proof fn lemma_mixer_readbacks(plan: Seq<Step>, layer: usize, own: LayerWeights, pass: Pass)
    ensures
        pass.instruments.calibration ==> observation_count(with_mixer(plan, layer, own, pass))
            == observation_count(plan) + 2,
        pass.instruments.capture ==> capture_count(with_mixer(plan, layer, own, pass))
            == capture_count(plan) + 1,
{
    broadcast use lemma_observation_count_push;
    broadcast use lemma_capture_count_push;

}

proof fn lemma_feed_forward_readbacks(plan: Seq<Step>, layer: usize, own: LayerWeights, pass: Pass)
    requires
        !pass.fuse_norms,
    ensures
        pass.instruments.calibration ==> observation_count(
            with_feed_forward(plan, layer, own, pass),
        ) == observation_count(plan) + 2,
        capture_count(with_feed_forward(plan, layer, own, pass)) == capture_count(plan),
{
    broadcast use lemma_observation_count_push;
    broadcast use lemma_capture_count_push;

}

/// A calibrated pass observes four inputs per layer and the head's: sixteen layers make the
/// sixty-five sites that a complete calibration has in each phase. A captured pass captures
/// two rows per layer and the final one.
pub proof fn instrumented_passes_read_every_site(
    model: Lfm2Model,
    start: usize,
    tokens: usize,
    one_kernel: bool,
    instruments: Instruments,
)
    requires
        instruments.calibration || instruments.capture,
    ensures
        ({
            let layers = model.weights@.layers.len() as int;
            let steps = pass_steps(
                model.weights@,
                sequence_pass_of(model, start, tokens, one_kernel, instruments),
            );
            &&& instruments.calibration ==> observation_count(steps) == 4 * layers + 1
            &&& instruments.calibration && layers == 16 ==> observation_count(steps) == 65
            &&& instruments.capture ==> capture_count(steps) == 2 * layers + 1
        }),
{
    broadcast use lemma_observation_count_push;
    broadcast use lemma_capture_count_push;

    let pass = sequence_pass_of(model, start, tokens, one_kernel, instruments);
    lemma_body_readbacks(model.weights@, pass, model.weights@.layers.len() as int);
}

/// The name under which a step's values are kept, if the step reads any back.
pub open spec fn readback_path(step: Step) -> Option<Seq<char>> {
    match (step.op, step.layer) {
        (Op::Observe { projection }, Some(layer)) => Some(
            layer_path(layer as nat, projection.input_path()) + ".input"@,
        ),
        (Op::ObserveHeadInput, _) => Some("lm_head.input"@),
        (Op::Capture { point: CapturePoint::PostMixerResidual }, Some(layer)) => Some(
            layer_path(layer as nat, ".post_mixer_residual"@),
        ),
        (Op::Capture { point: CapturePoint::PostFfnResidual }, Some(layer)) => Some(
            layer_path(layer as nat, ".post_ffn_residual"@),
        ),
        (Op::Capture { point: CapturePoint::FinalRmsNorm }, _) => Some("final_rms_norm"@),
        _ => None,
    }
}

/// Names the values that a step reads back.
pub fn readback_name(step: &Step) -> (r: Option<String>)
    ensures
        match r {
            Some(name) => readback_path(*step) == Some(name@),
            None => readback_path(*step) is None,
        },
{
    match (step.op, step.layer) {
        (Op::Observe { projection }, Some(layer)) => Some(input_name(layer, projection)),
        (Op::ObserveHeadInput, _) => Some("lm_head.input".to_owned()),
        (Op::Capture { point }, Some(layer)) => match point {
            CapturePoint::PostMixerResidual => Some(layer_name(layer, ".post_mixer_residual")),
            CapturePoint::PostFfnResidual => Some(layer_name(layer, ".post_ffn_residual")),
            CapturePoint::FinalRmsNorm => Some("final_rms_norm".to_owned()),
        },
        (Op::Capture { point: CapturePoint::FinalRmsNorm }, None) => Some(
            "final_rms_norm".to_owned(),
        ),
        _ => None,
    }
}

} // verus!
