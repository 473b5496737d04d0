//! What every planned pass has to do, and in which order.
use vstd::prelude::*;

use crate::model::forward::{
    batch_pass_of, body_steps, executor_pass_of, packed_pass_of, pass_steps, sequence_pass_of,
    speculative_pass_of, BatchShape, Instruments, with_conv, with_feed_forward, with_head, with_layer, with_mixer,
    with_operator, with_postprocess, with_qkv, AttentionKernel, CapturePoint, ConvKernel, HeadRows,
    LinearRoute, Op, Pass, QkvPostprocess, QkvProjection, Step,
};
use crate::model::profile::{DecodeProfileMode, ProfileRegion};
use crate::model::weights::{
    LayerWeights, Lfm2Model, LinearWeight, OperatorWeights, Projection, WeightsView,
};

verus! {

/// The step computes something, rather than reading values back.
pub open spec fn computes(op: Op) -> bool {
    !(op is Observe) && !(op is ObserveHeadInput) && !(op is Capture)
}

/// What a plan computes for one layer, in order; for none, what belongs to no layer.
pub open spec fn layer_ops(steps: Seq<Step>, layer: Option<usize>) -> Seq<Op>
    decreases steps.len(),
{
    if steps.len() == 0 {
        Seq::empty()
    } else if steps.last().layer == layer && computes(steps.last().op) {
        layer_ops(steps.drop_last(), layer).push(steps.last().op)
    } else {
        layer_ops(steps.drop_last(), layer)
    }
}

broadcast proof fn lemma_layer_ops_push(plan: Seq<Step>, step: Step, layer: Option<usize>)
    ensures
        #[trigger] layer_ops(plan.push(step), layer) == (if step.layer == layer && computes(
            step.op,
        ) {
            layer_ops(plan, layer).push(step.op)
        } else {
            layer_ops(plan, layer)
        }),
{
    assert(plan.push(step).drop_last() =~= plan);
}

spec fn plain(weight: LinearWeight, pass: Pass) -> LinearRoute {
    if pass.use_fp8 && weight.fp8 is Some {
        LinearRoute::Fp8
    } else {
        LinearRoute::Bf16
    }
}

spec fn front_ops(own: LayerWeights, pass: Pass) -> Seq<Op> {
    let a = own.operator->Attention_0;
    match pass.attention.projection {
        QkvProjection::Separate => seq![
            Op::Project { projection: Projection::Query, route: plain(a.query, pass) },
            Op::Project { projection: Projection::Key, route: plain(a.key, pass) },
            Op::Project { projection: Projection::Value, route: plain(a.value, pass) },
        ],
        QkvProjection::Packed => seq![Op::ProjectPackedQkv],
    }
}

spec fn back_ops(own: LayerWeights, pass: Pass) -> Seq<Op> {
    let a = own.operator->Attention_0;
    seq![
        match pass.attention.postprocess {
            QkvPostprocess::Stepwise => Op::NormRopeWrite,
            QkvPostprocess::Fused => Op::FusedNormRopeWrite,
            QkvPostprocess::FusedPacked => Op::PackedNormRopeWrite,
            QkvPostprocess::InAttention => Op::PostprocessInAttention,
        },
        Op::Attend { kernel: pass.attention.kernel },
        Op::Project { projection: Projection::Output, route: plain(a.output, pass) },
    ]
}

spec fn operator_ops(own: LayerWeights, pass: Pass) -> Seq<Op> {
    match own.operator {
        OperatorWeights::Attention(_) => front_ops(own, pass) + back_ops(own, pass),
        OperatorWeights::Conv(c) => seq![
            Op::Project { projection: Projection::ConvInput, route: plain(c.input, pass) },
            Op::Convolve { conv: pass.conv },
            Op::Project { projection: Projection::ConvOutput, route: plain(c.output, pass) },
        ],
    }
}

spec fn early(own: LayerWeights, pass: Pass) -> bool {
    pass.fuse_norms && pass.use_fp8 && own.gate_up.fp8 is Some
}

spec fn feed_ops(own: LayerWeights, pass: Pass) -> Seq<Op> {
    let gated = pass.fuse_activation && pass.use_fp8 && own.down.fp8 is Some;
    seq![
        Op::Project {
            projection: Projection::GateUp,
            route: if early(own, pass) {
                LinearRoute::Fp8Prequantized
            } else {
                plain(own.gate_up, pass)
            },
        },
        if gated {
            Op::ActivateQuantized
        } else {
            Op::Activate
        },
        Op::Project {
            projection: Projection::Down,
            route: if gated {
                LinearRoute::Fp8Prequantized
            } else {
                plain(own.down, pass)
            },
        },
    ]
}

proof fn lemma_qkv_ops(plan: Seq<Step>, layer: usize, own: LayerWeights, pass: Pass)
    requires
        own.operator is Attention,
    ensures
        layer_ops(with_qkv(plan, layer, own.operator->Attention_0, pass), Some(layer))
            == layer_ops(plan, Some(layer)) + front_ops(own, pass),
{
    broadcast use lemma_layer_ops_push;

    assert(layer_ops(with_qkv(plan, layer, own.operator->Attention_0, pass), Some(layer))
        =~= layer_ops(plan, Some(layer)) + front_ops(own, pass));
}

proof fn lemma_operator_ops(plan: Seq<Step>, layer: usize, own: LayerWeights, pass: Pass)
    ensures
        layer_ops(with_operator(plan, layer, own, pass), Some(layer)) == layer_ops(
            plan,
            Some(layer),
        ) + operator_ops(own, pass),
{
    broadcast use lemma_layer_ops_push;

    let start = layer_ops(plan, Some(layer));
    match own.operator {
        OperatorWeights::Attention(a) => {
            lemma_qkv_ops(plan, layer, own, pass);
            let projected = layer_ops(with_qkv(plan, layer, a, pass), Some(layer));
            assert(layer_ops(with_operator(plan, layer, own, pass), Some(layer)) =~= projected
                + back_ops(own, pass));
            assert(projected + back_ops(own, pass) =~= start + (front_ops(own, pass) + back_ops(
                own,
                pass,
            )));
        },
        OperatorWeights::Conv(c) => {
            assert(layer_ops(with_conv(plan, layer, c, pass), Some(layer)) =~= start
                + operator_ops(own, pass));
        },
    }
}

proof fn lemma_mixer_ops(plan: Seq<Step>, layer: usize, own: LayerWeights, pass: Pass)
    ensures
        layer_ops(with_mixer(plan, layer, own, pass), Some(layer)) == (layer_ops(plan, Some(layer))
            + operator_ops(own, pass)).push(Op::MixNorm { quantize: early(own, pass) }),
{
    broadcast use lemma_layer_ops_push;

    let observed = if pass.instruments.calibration {
        plan.push(
            Step {
                layer: Some(layer),
                op: Op::Observe {
                    projection: match own.operator {
                        OperatorWeights::Attention(_) => Projection::Query,
                        OperatorWeights::Conv(_) => Projection::ConvInput,
                    },
                },
                region: None,
            },
        )
    } else {
        plan
    };
    lemma_operator_ops(observed, layer, own, pass);
}

proof fn lemma_feed_ops(plan: Seq<Step>, layer: usize, own: LayerWeights, pass: Pass)
    ensures
        layer_ops(with_feed_forward(plan, layer, own, pass), Some(layer)) == layer_ops(
            plan,
            Some(layer),
        ) + feed_ops(own, pass),
{
    broadcast use lemma_layer_ops_push;

    assert(layer_ops(with_feed_forward(plan, layer, own, pass), Some(layer)) =~= layer_ops(
        plan,
        Some(layer),
    ) + feed_ops(own, pass));
}

spec fn all_layer_ops(weights: WeightsView, index: int, pass: Pass) -> Seq<Op> {
    let own = weights.layers[index];
    let last = index == weights.layers.len() - 1;
    operator_ops(own, pass).push(Op::MixNorm { quantize: early(own, pass) }) + feed_ops(
        own,
        pass,
    ).push(
        Op::NextNorm {
            last,
            quantize: last && pass.fuse_norms && pass.use_fp8 && weights.embedding.fp8 is Some,
        },
    )
}

proof fn lemma_layer_ops(plan: Seq<Step>, weights: WeightsView, index: int, pass: Pass)
    requires
        0 <= index < weights.layers.len() <= usize::MAX,
        layer_ops(plan, Some(index as usize)) == Seq::<Op>::empty(),
    ensures
        layer_ops(with_layer(plan, weights, index, pass), Some(index as usize)) == all_layer_ops(
            weights,
            index,
            pass,
        ),
{
    broadcast use lemma_layer_ops_push;

    let own = weights.layers[index];
    let layer = index as usize;
    let mixed = with_mixer(plan, layer, own, pass);
    lemma_mixer_ops(plan, layer, own, pass);
    lemma_feed_ops(mixed, layer, own, pass);
    assert(layer_ops(with_layer(plan, weights, index, pass), Some(layer)) =~= all_layer_ops(
        weights,
        index,
        pass,
    ));
}

/// The steps of one layer add nothing to another layer, nor to what belongs to no layer.
proof fn lemma_other_layer(
    plan: Seq<Step>,
    weights: WeightsView,
    index: int,
    pass: Pass,
    other: Option<usize>,
)
    requires
        0 <= index < weights.layers.len() <= usize::MAX,
        other != Some(index as usize),
    ensures
        layer_ops(with_layer(plan, weights, index, pass), other) == layer_ops(plan, other),
{
    broadcast use lemma_layer_ops_push;

    let own = weights.layers[index];
    let layer = index as usize;
    let mixed = with_mixer(plan, layer, own, pass);
    assert(layer_ops(mixed, other) == layer_ops(plan, other));
    assert(layer_ops(with_feed_forward(mixed, layer, own, pass), other) == layer_ops(mixed, other));
}

proof fn lemma_body_ops(weights: WeightsView, pass: Pass, upto: int, layer: Option<usize>)
    requires
        0 <= upto <= weights.layers.len() <= usize::MAX,
    ensures
        layer is None ==> layer_ops(body_steps(weights, pass, upto), layer) == seq![
            Op::Embed,
            Op::InitialNorm,
        ],
        layer matches Some(l) ==> layer_ops(body_steps(weights, pass, upto), layer) == (if l
            < upto {
            all_layer_ops(weights, l as int, pass)
        } else {
            Seq::<Op>::empty()
        }),
    decreases upto,
{
    if upto > 0 {
        let before = body_steps(weights, pass, upto - 1);
        lemma_body_ops(weights, pass, upto - 1, layer);
        if layer == Some((upto - 1) as usize) {
            lemma_layer_ops(before, weights, upto - 1, pass);
        } else {
            lemma_other_layer(before, weights, upto - 1, pass, layer);
        }
    } else {
        reveal_with_fuel(layer_ops, 4);
        let start = body_steps(weights, pass, upto);
        assert(start.drop_last() =~= seq![start[0]]);
        assert(start.drop_last().drop_last() =~= Seq::<Step>::empty());
        if layer is None {
            assert(layer_ops(start, layer) =~= seq![Op::Embed, Op::InitialNorm]);
        }
    }
}

proof fn lemma_pass_ops(weights: WeightsView, pass: Pass, index: int)
    requires
        0 <= index < weights.layers.len() <= usize::MAX,
    ensures
        layer_ops(pass_steps(weights, pass), Some(index as usize)) == all_layer_ops(
            weights,
            index,
            pass,
        ),
{
    broadcast use lemma_layer_ops_push;

    let body = body_steps(weights, pass, weights.layers.len() as int);
    lemma_body_ops(weights, pass, weights.layers.len() as int, Some(index as usize));
    assert(layer_ops(with_head(body, weights, pass), Some(index as usize)) == layer_ops(
        body,
        Some(index as usize),
    ));
}

/// Every attention layer of every pass makes its queries, keys and values, finishes them, runs
/// exactly one attention kernel, the one that the pass decided on, and projects the result.
/// Then it adds and normalises, runs the feed-forward part with its gating in the middle, and
/// adds and normalises for the layer behind it. A product runs in fp8 exactly if the pass does
/// and its own weight has an fp8 copy.
pub proof fn attention_layers_run_in_order(weights: WeightsView, pass: Pass, index: int)
    requires
        0 <= index < weights.layers.len() <= usize::MAX,
        weights.layers[index].operator is Attention,
    ensures
        ({
            let own = weights.layers[index];
            let a = own.operator->Attention_0;
            let route = |weight: LinearWeight|
                if pass.use_fp8 && weight.fp8 is Some {
                    LinearRoute::Fp8
                } else {
                    LinearRoute::Bf16
                };
            let last = index == weights.layers.len() - 1;
            let early = pass.fuse_norms && pass.use_fp8 && own.gate_up.fp8 is Some;
            let gated = pass.fuse_activation && pass.use_fp8 && own.down.fp8 is Some;
            let front = match pass.attention.projection {
                QkvProjection::Separate => seq![
                    Op::Project { projection: Projection::Query, route: route(a.query) },
                    Op::Project { projection: Projection::Key, route: route(a.key) },
                    Op::Project { projection: Projection::Value, route: route(a.value) },
                ],
                QkvProjection::Packed => seq![Op::ProjectPackedQkv],
            };
            layer_ops(pass_steps(weights, pass), Some(index as usize)) == front + seq![
                match pass.attention.postprocess {
                    QkvPostprocess::Stepwise => Op::NormRopeWrite,
                    QkvPostprocess::Fused => Op::FusedNormRopeWrite,
                    QkvPostprocess::FusedPacked => Op::PackedNormRopeWrite,
                    QkvPostprocess::InAttention => Op::PostprocessInAttention,
                },
                Op::Attend { kernel: pass.attention.kernel },
                Op::Project { projection: Projection::Output, route: route(a.output) },
                Op::MixNorm { quantize: early },
                Op::Project {
                    projection: Projection::GateUp,
                    route: if early {
                        LinearRoute::Fp8Prequantized
                    } else {
                        route(own.gate_up)
                    },
                },
                if gated {
                    Op::ActivateQuantized
                } else {
                    Op::Activate
                },
                Op::Project {
                    projection: Projection::Down,
                    route: if gated {
                        LinearRoute::Fp8Prequantized
                    } else {
                        route(own.down)
                    },
                },
                Op::NextNorm {
                    last,
                    quantize: last && pass.fuse_norms && pass.use_fp8
                        && weights.embedding.fp8 is Some,
                },
            ]
        }),
{
    let own = weights.layers[index];
    let a = own.operator->Attention_0;
    let layer = index as usize;
    lemma_pass_ops(weights, pass, index);
    let route = |weight: LinearWeight|
        if pass.use_fp8 && weight.fp8 is Some {
            LinearRoute::Fp8
        } else {
            LinearRoute::Bf16
        };
    let last = index == weights.layers.len() - 1;
    let early = pass.fuse_norms && pass.use_fp8 && own.gate_up.fp8 is Some;
    let gated = pass.fuse_activation && pass.use_fp8 && own.down.fp8 is Some;
    let front = match pass.attention.projection {
        QkvProjection::Separate => seq![
            Op::Project { projection: Projection::Query, route: route(a.query) },
            Op::Project { projection: Projection::Key, route: route(a.key) },
            Op::Project { projection: Projection::Value, route: route(a.value) },
        ],
        QkvProjection::Packed => seq![Op::ProjectPackedQkv],
    };
    assert(layer_ops(pass_steps(weights, pass), Some(layer)) =~= front + seq![
        match pass.attention.postprocess {
            QkvPostprocess::Stepwise => Op::NormRopeWrite,
            QkvPostprocess::Fused => Op::FusedNormRopeWrite,
            QkvPostprocess::FusedPacked => Op::PackedNormRopeWrite,
            QkvPostprocess::InAttention => Op::PostprocessInAttention,
        },
        Op::Attend { kernel: pass.attention.kernel },
        Op::Project { projection: Projection::Output, route: route(a.output) },
        Op::MixNorm { quantize: early },
        Op::Project {
            projection: Projection::GateUp,
            route: if early {
                LinearRoute::Fp8Prequantized
            } else {
                route(own.gate_up)
            },
        },
        if gated {
            Op::ActivateQuantized
        } else {
            Op::Activate
        },
        Op::Project {
            projection: Projection::Down,
            route: if gated {
                LinearRoute::Fp8Prequantized
            } else {
                route(own.down)
            },
        },
        Op::NextNorm {
            last,
            quantize: last && pass.fuse_norms && pass.use_fp8 && weights.embedding.fp8 is Some,
        },
    ]);
}

/// Every convolution layer of every pass projects its input, runs exactly one convolution, the
/// one that the pass decided on, and projects the result; the rest of the layer is as in an
/// attention layer.
pub proof fn convolution_layers_run_in_order(weights: WeightsView, pass: Pass, index: int)
    requires
        0 <= index < weights.layers.len() <= usize::MAX,
        weights.layers[index].operator is Conv,
    ensures
        ({
            let own = weights.layers[index];
            let c = own.operator->Conv_0;
            let route = |weight: LinearWeight|
                if pass.use_fp8 && weight.fp8 is Some {
                    LinearRoute::Fp8
                } else {
                    LinearRoute::Bf16
                };
            let last = index == weights.layers.len() - 1;
            let early = pass.fuse_norms && pass.use_fp8 && own.gate_up.fp8 is Some;
            let gated = pass.fuse_activation && pass.use_fp8 && own.down.fp8 is Some;
            layer_ops(pass_steps(weights, pass), Some(index as usize)) == seq![
                Op::Project { projection: Projection::ConvInput, route: route(c.input) },
                Op::Convolve { conv: pass.conv },
                Op::Project { projection: Projection::ConvOutput, route: route(c.output) },
                Op::MixNorm { quantize: early },
                Op::Project {
                    projection: Projection::GateUp,
                    route: if early {
                        LinearRoute::Fp8Prequantized
                    } else {
                        route(own.gate_up)
                    },
                },
                if gated {
                    Op::ActivateQuantized
                } else {
                    Op::Activate
                },
                Op::Project {
                    projection: Projection::Down,
                    route: if gated {
                        LinearRoute::Fp8Prequantized
                    } else {
                        route(own.down)
                    },
                },
                Op::NextNorm {
                    last,
                    quantize: last && pass.fuse_norms && pass.use_fp8
                        && weights.embedding.fp8 is Some,
                },
            ]
        }),
{
    let own = weights.layers[index];
    let c = own.operator->Conv_0;
    let layer = index as usize;
    lemma_pass_ops(weights, pass, index);
    let route = |weight: LinearWeight|
        if pass.use_fp8 && weight.fp8 is Some {
            LinearRoute::Fp8
        } else {
            LinearRoute::Bf16
        };
    let last = index == weights.layers.len() - 1;
    let early = pass.fuse_norms && pass.use_fp8 && own.gate_up.fp8 is Some;
    let gated = pass.fuse_activation && pass.use_fp8 && own.down.fp8 is Some;
    assert(layer_ops(pass_steps(weights, pass), Some(layer)) =~= seq![
        Op::Project { projection: Projection::ConvInput, route: route(c.input) },
        Op::Convolve { conv: pass.conv },
        Op::Project { projection: Projection::ConvOutput, route: route(c.output) },
        Op::MixNorm { quantize: early },
        Op::Project {
            projection: Projection::GateUp,
            route: if early {
                LinearRoute::Fp8Prequantized
            } else {
                route(own.gate_up)
            },
        },
        if gated {
            Op::ActivateQuantized
        } else {
            Op::Activate
        },
        Op::Project {
            projection: Projection::Down,
            route: if gated {
                LinearRoute::Fp8Prequantized
            } else {
                route(own.down)
            },
        },
        Op::NextNorm {
            last,
            quantize: last && pass.fuse_norms && pass.use_fp8 && weights.embedding.fp8 is Some,
        },
    ]);
}

/// Outside its layers a pass embeds the tokens and normalises them, gathers the output rows
/// where only those get logits, and runs the head once; it picks tokens only if it is to.
pub proof fn passes_begin_and_end_in_order(weights: WeightsView, pass: Pass)
    requires
        weights.layers.len() <= usize::MAX,
    ensures
        ({
            let gather = if pass.head == HeadRows::Gathered {
                seq![Op::GatherRows]
            } else {
                Seq::empty()
            };
            let pick = if pass.argmax {
                seq![Op::Argmax]
            } else {
                Seq::empty()
            };
            layer_ops(pass_steps(weights, pass), None) == seq![Op::Embed, Op::InitialNorm] + gather
                + seq![
                Op::Head {
                    rows: pass.head,
                    route: if !pass.use_fp8 || weights.embedding.fp8 is None {
                        LinearRoute::Bf16
                    } else if pass.fuse_norms {
                        LinearRoute::Fp8Prequantized
                    } else {
                        LinearRoute::Fp8
                    },
                },
            ] + pick
        }),
{
    broadcast use lemma_layer_ops_push;

    let body = body_steps(weights, pass, weights.layers.len() as int);
    lemma_body_ops(weights, pass, weights.layers.len() as int, None);
    let gather = if pass.head == HeadRows::Gathered {
        seq![Op::GatherRows]
    } else {
        Seq::empty()
    };
    let pick = if pass.argmax {
        seq![Op::Argmax]
    } else {
        Seq::empty()
    };
    assert(layer_ops(with_head(body, weights, pass), None) =~= seq![Op::Embed, Op::InitialNorm]
        + gather + seq![
        Op::Head {
            rows: pass.head,
            route: if !pass.use_fp8 || weights.embedding.fp8 is None {
                LinearRoute::Bf16
            } else if pass.fuse_norms {
                LinearRoute::Fp8Prequantized
            } else {
                LinearRoute::Fp8
            },
        },
    ] + pick);
}

/// The steps stand layer by layer, behind the two that begin a pass.
spec fn is_grouped(plan: Seq<Step>, upto: int) -> bool {
    &&& plan.len() >= 2
    &&& plan[0].op == Op::Embed
    &&& plan[1].op == Op::InitialNorm
    &&& plan[0].layer is None
    &&& plan[1].layer is None
    &&& forall|i: int|
        2 <= i < plan.len() ==> (#[trigger] plan[i]).layer is Some && plan[i].layer->Some_0 <= upto
    &&& forall|i: int, j: int|
        2 <= i < j < plan.len() ==> (#[trigger] plan[i]).layer->Some_0 <= (
        #[trigger] plan[j]).layer->Some_0
}

broadcast proof fn lemma_grouped_push(plan: Seq<Step>, step: Step, upto: int)
    requires
        is_grouped(plan, upto),
        step.layer is Some,
        step.layer->Some_0 == upto,
    ensures
        #[trigger] is_grouped(plan.push(step), upto),
{
    let after = plan.push(step);
    assert forall|i: int| 0 <= i < plan.len() implies after[i] == plan[i] by {}
}

proof fn lemma_layer_is_grouped(plan: Seq<Step>, weights: WeightsView, index: int, pass: Pass)
    requires
        0 <= index < weights.layers.len() <= usize::MAX,
        is_grouped(plan, index),
    ensures
        is_grouped(with_layer(plan, weights, index, pass), index),
{
    broadcast use lemma_grouped_push;

    let own = weights.layers[index];
    let layer = index as usize;
    let mixed = with_mixer(plan, layer, own, pass);
    assert(is_grouped(mixed, index)) by {
        if let OperatorWeights::Attention(a) = own.operator {
            let observed = if pass.instruments.calibration {
                plan.push(
                    Step {
                        layer: Some(layer),
                        op: Op::Observe { projection: Projection::Query },
                        region: None,
                    },
                )
            } else {
                plan
            };
            assert(is_grouped(with_qkv(observed, layer, a, pass), index));
        }
    }
    assert(is_grouped(with_feed_forward(mixed, layer, own, pass), index));
}

proof fn lemma_body_is_grouped(weights: WeightsView, pass: Pass, upto: int)
    requires
        0 <= upto <= weights.layers.len() <= usize::MAX,
    ensures
        is_grouped(body_steps(weights, pass, upto), upto),
    decreases upto,
{
    if upto > 0 {
        let before = body_steps(weights, pass, upto - 1);
        lemma_body_is_grouped(weights, pass, upto - 1);
        lemma_layer_is_grouped(before, weights, upto - 1, pass);
    }
}

/// A pass runs its layers one after another, from the first to the last, between embedding the
/// tokens and running the head.
pub proof fn passes_run_layer_by_layer(weights: WeightsView, pass: Pass, i: int, j: int)
    requires
        weights.layers.len() <= usize::MAX,
        0 <= i < j < pass_steps(weights, pass).len(),
    ensures
        ({
            let steps = pass_steps(weights, pass);
            &&& steps[0].op == Op::Embed
            &&& steps[1].op == Op::InitialNorm
            &&& steps[i].layer is Some && steps[j].layer is Some ==> steps[i].layer->Some_0
                <= steps[j].layer->Some_0
            &&& steps[i].layer is None && steps[j].layer is Some ==> i < 2
            &&& steps[i].op is Head ==> steps[j].op == Op::Argmax
        }),
{
    let body = body_steps(weights, pass, weights.layers.len() as int);
    lemma_body_is_grouped(weights, pass, weights.layers.len() as int);
    lemma_body_has_no_head(weights, pass, weights.layers.len() as int);
    let steps = pass_steps(weights, pass);
    assert forall|k: int| 0 <= k < body.len() implies steps[k] == body[k] by {}
}

spec fn has_no_head(plan: Seq<Step>) -> bool {
    forall|i: int| 0 <= i < plan.len() ==> !((#[trigger] plan[i]).op is Head)
}

broadcast proof fn lemma_no_head_push(plan: Seq<Step>, step: Step)
    requires
        has_no_head(plan),
        !(step.op is Head),
    ensures
        #[trigger] has_no_head(plan.push(step)),
{
}

proof fn lemma_body_has_no_head(weights: WeightsView, pass: Pass, upto: int)
    ensures
        has_no_head(body_steps(weights, pass, upto)),
    decreases upto,
{
    broadcast use lemma_no_head_push;

    if upto > 0 {
        let before = body_steps(weights, pass, upto - 1);
        let own = weights.layers[upto - 1];
        let layer = (upto - 1) as usize;
        lemma_body_has_no_head(weights, pass, upto - 1);
        let mixed = with_mixer(before, layer, own, pass);
        assert(has_no_head(mixed)) by {
            if let OperatorWeights::Attention(a) = own.operator {
                let observed = if pass.instruments.calibration {
                    before.push(
                        Step {
                            layer: Some(layer),
                            op: Op::Observe { projection: Projection::Query },
                            region: None,
                        },
                    )
                } else {
                    before
                };
                assert(has_no_head(with_qkv(observed, layer, a, pass)));
            }
        }
        assert(has_no_head(with_feed_forward(mixed, layer, own, pass)));
    }
}

/// The region that a step is timed in. Coarse profiling times whole operators, detailed
/// profiling their parts; both time norms and the head, and neither times what is only read
/// back for calibration outside an operator.
pub open spec fn timed_as(op: Op, mode: DecodeProfileMode) -> Option<ProfileRegion> {
    let (coarse, detailed) = match op {
        Op::Project { projection: Projection::Query, .. }
        | Op::Project { projection: Projection::Key, .. }
        | Op::Project { projection: Projection::Value, .. }
        | Op::ProjectPackedQkv => (
            Some(ProfileRegion::Attention),
            Some(ProfileRegion::AttnQkvProj),
        ),
        Op::NormRopeWrite
        | Op::FusedNormRopeWrite
        | Op::PackedNormRopeWrite
        | Op::PostprocessInAttention => (
            Some(ProfileRegion::Attention),
            Some(ProfileRegion::AttnPostprocess),
        ),
        Op::Attend { .. } => (Some(ProfileRegion::Attention), Some(ProfileRegion::AttnXqa)),
        Op::Project { projection: Projection::Output, .. } => (
            Some(ProfileRegion::Attention),
            Some(ProfileRegion::AttnOutProj),
        ),
        Op::Observe { projection: Projection::Output } => (Some(ProfileRegion::Attention), None),
        Op::Project { projection: Projection::ConvInput, .. } => (
            Some(ProfileRegion::Conv),
            Some(ProfileRegion::ConvInProj),
        ),
        Op::Convolve { .. } => (Some(ProfileRegion::Conv), Some(ProfileRegion::ConvKernel)),
        Op::Project { projection: Projection::ConvOutput, .. } => (
            Some(ProfileRegion::Conv),
            Some(ProfileRegion::ConvOutProj),
        ),
        Op::Observe { projection: Projection::ConvOutput } => (Some(ProfileRegion::Conv), None),
        Op::Project { projection: Projection::GateUp, .. } => (
            Some(ProfileRegion::Mlp),
            Some(ProfileRegion::MlpGateUpGemm),
        ),
        Op::Activate | Op::ActivateQuantized => (
            Some(ProfileRegion::Mlp),
            Some(ProfileRegion::MlpSilu),
        ),
        Op::Project { projection: Projection::Down, .. } => (
            Some(ProfileRegion::Mlp),
            Some(ProfileRegion::MlpDownGemm),
        ),
        Op::Observe { projection: Projection::GateUp }
        | Op::Observe { projection: Projection::Down } => (Some(ProfileRegion::Mlp), None),
        Op::InitialNorm | Op::MixNorm { .. } | Op::NextNorm { .. } => (
            Some(ProfileRegion::ResidualNorm),
            Some(ProfileRegion::ResidualNorm),
        ),
        Op::Head { .. } => (Some(ProfileRegion::LmHead), Some(ProfileRegion::LmHead)),
        _ => (None, None),
    };
    match mode {
        DecodeProfileMode::Off => None,
        DecodeProfileMode::Coarse => coarse,
        DecodeProfileMode::Detailed => detailed,
    }
}

spec fn is_timed(plan: Seq<Step>, mode: DecodeProfileMode) -> bool {
    forall|i: int| 0 <= i < plan.len() ==> (#[trigger] plan[i]).region == timed_as(plan[i].op, mode)
}

broadcast proof fn lemma_timed_push(plan: Seq<Step>, step: Step, mode: DecodeProfileMode)
    requires
        is_timed(plan, mode),
        step.region == timed_as(step.op, mode),
    ensures
        #[trigger] is_timed(plan.push(step), mode),
{
}

proof fn lemma_body_is_timed(weights: WeightsView, pass: Pass, upto: int)
    ensures
        is_timed(body_steps(weights, pass, upto), pass.instruments.profile),
    decreases upto,
{
    broadcast use lemma_timed_push;

    let mode = pass.instruments.profile;
    if upto > 0 {
        let before = body_steps(weights, pass, upto - 1);
        let own = weights.layers[upto - 1];
        let layer = (upto - 1) as usize;
        lemma_body_is_timed(weights, pass, upto - 1);
        let mixed = with_mixer(before, layer, own, pass);
        assert(is_timed(mixed, mode)) by {
            if let OperatorWeights::Attention(a) = own.operator {
                let observed = if pass.instruments.calibration {
                    before.push(
                        Step {
                            layer: Some(layer),
                            op: Op::Observe { projection: Projection::Query },
                            region: None,
                        },
                    )
                } else {
                    before
                };
                assert(is_timed(observed, mode));
                let projected = with_qkv(observed, layer, a, pass);
                assert(is_timed(projected, mode));
                assert(is_timed(with_postprocess(projected, layer, pass), mode));
            }
        }
        assert(is_timed(with_feed_forward(mixed, layer, own, pass), mode));
    }
}

/// Every step of a pass is timed in the region that it belongs to.
pub proof fn steps_are_timed_where_they_belong(weights: WeightsView, pass: Pass, i: int)
    requires
        0 <= i < pass_steps(weights, pass).len(),
    ensures
        pass_steps(weights, pass)[i].region == timed_as(
            pass_steps(weights, pass)[i].op,
            pass.instruments.profile,
        ),
{
    broadcast use lemma_timed_push;

    lemma_body_is_timed(weights, pass, weights.layers.len() as int);
    assert(is_timed(pass_steps(weights, pass), pass.instruments.profile));
}

/// What is observed is the input of the product right behind it; what is captured comes out of
/// the norm right before it.
pub open spec fn reads_what_it_says(step: Step, next: Step) -> bool {
    &&& step.op matches Op::Observe { projection } ==> {
        &&& next.layer == step.layer
        &&& {
            ||| next.op matches Op::Project { projection: read, .. } && read == projection
            ||| projection == Projection::Query && next.op == Op::ProjectPackedQkv
        }
    }
    &&& step.op == Op::ObserveHeadInput ==> next.op is Head || next.op == Op::GatherRows
    &&& next.op == (Op::Capture { point: CapturePoint::PostMixerResidual }) ==> step.op is MixNorm
        && next.layer == step.layer
    &&& next.op == (Op::Capture { point: CapturePoint::PostFfnResidual }) ==> step.op is NextNorm
        && next.layer == step.layer
}

spec fn is_read_back(plan: Seq<Step>) -> bool {
    forall|i: int| 0 <= i < plan.len() - 1 ==> reads_what_it_says(#[trigger] plan[i], plan[i + 1])
}

broadcast proof fn lemma_read_back_push(plan: Seq<Step>, step: Step)
    requires
        is_read_back(plan),
        plan.len() > 0 ==> reads_what_it_says(plan.last(), step),
    ensures
        #[trigger] is_read_back(plan.push(step)),
{
    let after = plan.push(step);
    assert forall|i: int| 0 <= i < after.len() - 1 implies reads_what_it_says(
        #[trigger] after[i],
        after[i + 1],
    ) by {
        if i < plan.len() - 1 {
            assert(after[i] == plan[i] && after[i + 1] == plan[i + 1]);
        }
    }
}

proof fn lemma_operator_is_read_back(plan: Seq<Step>, layer: usize, own: LayerWeights, pass: Pass)
    requires
        is_read_back(plan),
        plan.len() > 0,
        !(plan.last().op is ObserveHeadInput),
        plan.last().op matches Op::Observe { projection } ==> plan.last().layer == Some(layer)
            && projection == (match own.operator {
            OperatorWeights::Attention(_) => Projection::Query,
            OperatorWeights::Conv(_) => Projection::ConvInput,
        }),
    ensures
        is_read_back(with_operator(plan, layer, own, pass)),
        with_operator(plan, layer, own, pass).len() > 0,
        with_operator(plan, layer, own, pass).last().op is Project,
{
    broadcast use lemma_read_back_push;

    match own.operator {
        OperatorWeights::Attention(a) => {
            let projected = with_qkv(plan, layer, a, pass);
            assert(is_read_back(projected));
            let ready = with_postprocess(projected, layer, pass);
            assert(is_read_back(ready));
        },
        OperatorWeights::Conv(_) => {},
    }
}

proof fn lemma_mixer_is_read_back(plan: Seq<Step>, layer: usize, own: LayerWeights, pass: Pass)
    requires
        is_read_back(plan),
        plan.len() > 0,
        computes(plan.last().op) || plan.last().op is Capture,
    ensures
        is_read_back(with_mixer(plan, layer, own, pass)),
        with_mixer(plan, layer, own, pass).len() > 0,
        with_mixer(plan, layer, own, pass).last().op is MixNorm || with_mixer(
            plan,
            layer,
            own,
            pass,
        ).last().op is Capture,
{
    broadcast use lemma_read_back_push;

    let observed = if pass.instruments.calibration {
        plan.push(
            Step {
                layer: Some(layer),
                op: Op::Observe {
                    projection: match own.operator {
                        OperatorWeights::Attention(_) => Projection::Query,
                        OperatorWeights::Conv(_) => Projection::ConvInput,
                    },
                },
                region: None,
            },
        )
    } else {
        plan
    };
    lemma_operator_is_read_back(observed, layer, own, pass);
}

proof fn lemma_feed_is_read_back(plan: Seq<Step>, layer: usize, own: LayerWeights, pass: Pass)
    requires
        is_read_back(plan),
        plan.len() > 0,
        computes(plan.last().op) || plan.last().op is Capture,
    ensures
        is_read_back(with_feed_forward(plan, layer, own, pass)),
        with_feed_forward(plan, layer, own, pass).len() > 0,
        with_feed_forward(plan, layer, own, pass).last().op is Project,
{
    broadcast use lemma_read_back_push;

}

proof fn lemma_layer_is_read_back(plan: Seq<Step>, weights: WeightsView, index: int, pass: Pass)
    requires
        is_read_back(plan),
        plan.len() > 0,
        computes(plan.last().op) || plan.last().op is Capture,
    ensures
        is_read_back(with_layer(plan, weights, index, pass)),
        with_layer(plan, weights, index, pass).len() > 0,
        with_layer(plan, weights, index, pass).last().op is NextNorm || with_layer(
            plan,
            weights,
            index,
            pass,
        ).last().op is Capture,
{
    let own = weights.layers[index];
    let layer = index as usize;
    let mixed = with_mixer(plan, layer, own, pass);
    let fed = with_feed_forward(mixed, layer, own, pass);
    lemma_mixer_is_read_back(plan, layer, own, pass);
    lemma_feed_is_read_back(mixed, layer, own, pass);
    let last = index + 1 == weights.layers.len();
    let norm = Step {
        layer: Some(layer),
        op: Op::NextNorm {
            last,
            quantize: last && pass.fuse_norms && pass.use_fp8 && weights.embedding.fp8 is Some,
        },
        region: timed_as(Op::NextNorm { last, quantize: false }, pass.instruments.profile),
    };
    lemma_read_back_push(fed, norm);
    let capture = Step {
        layer: Some(layer),
        op: Op::Capture { point: CapturePoint::PostFfnResidual },
        region: None,
    };
    assert(fed.push(norm).last() == norm);
    lemma_read_back_push(fed.push(norm), capture);
}

proof fn lemma_body_is_read_back(weights: WeightsView, pass: Pass, upto: int)
    ensures
        is_read_back(body_steps(weights, pass, upto)),
        body_steps(weights, pass, upto).len() > 0,
        computes(body_steps(weights, pass, upto).last().op) || body_steps(
            weights,
            pass,
            upto,
        ).last().op is Capture,
    decreases upto,
{
    if upto > 0 {
        lemma_body_is_read_back(weights, pass, upto - 1);
        lemma_layer_is_read_back(body_steps(weights, pass, upto - 1), weights, upto - 1, pass);
    }
}

/// Calibration observes the very inputs that products read, and evaluation captures the very
/// rows that norms give: every such step stands right beside the step it speaks of.
pub proof fn readbacks_stand_beside_what_they_read(weights: WeightsView, pass: Pass, i: int)
    requires
        0 <= i < pass_steps(weights, pass).len() - 1,
    ensures
        reads_what_it_says(pass_steps(weights, pass)[i], pass_steps(weights, pass)[i + 1]),
{
    broadcast use lemma_read_back_push;

    lemma_body_is_read_back(weights, pass, weights.layers.len() as int);
    assert(is_read_back(pass_steps(weights, pass)));
}

/// The attention kernel gets the input that it needs: the fused kernels do the work before
/// attention themselves, every other kernel has it done in a step of its own, and a prefill
/// reads what was just computed in steps.
pub open spec fn kernel_is_fed(pass: Pass) -> bool {
    let kernel = pass.attention.kernel;
    &&& pass.attention.postprocess == QkvPostprocess::InAttention <==> kernel is FusedPaged
        || kernel is FusedRaggedPaged
    &&& pass.attention.postprocess == QkvPostprocess::Stepwise <==> kernel is Prefill
        || kernel is SegmentedPrefill || kernel is Hybrid
    &&& pass.attention.postprocess == QkvPostprocess::FusedPacked <==> pass.attention.projection
        == QkvProjection::Packed
}

/// How the tokens of one sequence run. Several tokens on an empty cache are a prefill, all other
/// tokens read the cache, with the fused kernel where it is the faster one. Only the last token
/// gets logits, for the caller to sample from. One token behind others decodes, in fp8 if that
/// is on; norms quantise ahead only while nobody reads their output back.
pub proof fn sequence_passes_suit_their_tokens(
    model: Lfm2Model,
    start: usize,
    tokens: usize,
    one_kernel: bool,
    instruments: Instruments,
)
    ensures
        ({
            let pass = sequence_pass_of(model, start, tokens, one_kernel, instruments);
            let prefill = start == 0 && tokens > 1;
            &&& kernel_is_fed(pass)
            &&& pass.attention.kernel is Prefill <==> prefill
            &&& pass.attention.kernel is FusedPaged <==> !prefill && one_kernel
            &&& pass.attention.kernel is PagedFast <==> !prefill && !one_kernel
            &&& pass.attention.projection == QkvProjection::Separate
            &&& pass.use_fp8 <==> model.decode_fp8_enabled && start > 0 && tokens == 1
            &&& pass.fuse_norms <==> model.fused_rms_fp8_enabled && !instruments.calibration
                && !instruments.capture
            &&& !pass.fuse_activation
            &&& pass.conv == ConvKernel::Single
            &&& pass.head == HeadRows::Last
            &&& !pass.argmax
            &&& pass.instruments == instruments
        }),
{
}

/// How drafted tokens run. Every one of them gets logits, since each is held against the model's
/// own choice, and the convolutions keep the state behind every token, so that the pass can be
/// rolled back to any of them.
pub proof fn speculative_passes_can_be_judged_and_undone(model: Lfm2Model, start: usize, tokens: usize)
    ensures
        ({
            let pass = speculative_pass_of(model, start, tokens);
            &&& pass.head == HeadRows::All
            &&& pass.conv == ConvKernel::WithHistory
            &&& kernel_is_fed(pass)
            &&& pass.attention.kernel is PagedFast
            &&& pass.attention.projection == QkvProjection::Separate
            &&& pass.use_fp8 <==> model.decode_fp8_enabled && start > 0 && tokens
                <= model.maximum_fp8_batch
            &&& pass.fuse_norms == model.fused_rms_fp8_enabled
            &&& !pass.fuse_activation
            &&& !pass.argmax
            &&& pass.instruments.profile == DecodeProfileMode::Off
            &&& !pass.instruments.calibration && !pass.instruments.capture
        }),
{
}

/// How a batch runs. Decoding rows read the cache, with the fused kernel where it is the faster
/// one; whole prompts alone, one or several, have kernels of their own; everything else runs
/// with the kernel for mixed rows. Every segment gets the logits of its output row.
pub proof fn batch_passes_suit_their_rows(model: Lfm2Model, shape: BatchShape)
    ensures
        ({
            let pass = batch_pass_of(model, shape);
            let kernel = pass.attention.kernel;
            &&& kernel_is_fed(pass)
            &&& kernel is FusedRaggedPaged <==> shape.decode_only && shape.one_kernel
            &&& kernel is RaggedFast <==> shape.decode_only && !shape.one_kernel
            &&& kernel is Prefill <==> !shape.decode_only && shape.contiguous_prefill
            &&& kernel is SegmentedPrefill <==> !shape.decode_only && !shape.contiguous_prefill
                && shape.segmented_prefill && shape.flash_prefill
            &&& kernel is SegmentedPrefill ==> kernel == (AttentionKernel::SegmentedPrefill {
                longest: shape.longest_segment,
            })
            &&& kernel is Hybrid <==> !shape.decode_only && !shape.contiguous_prefill && !(
            shape.segmented_prefill && shape.flash_prefill)
            &&& pass.attention.projection == QkvProjection::Separate
            &&& pass.use_fp8 <==> model.decode_fp8_enabled && !shape.prefill_rows && shape.tokens
                <= model.maximum_fp8_batch
            &&& !pass.fuse_norms && !pass.fuse_activation
            &&& pass.conv == ConvKernel::Segmented
            &&& pass.head == HeadRows::Gathered
            &&& !pass.argmax
        }),
{
}

/// Packed projections are taken exactly by bf16 decode batches outside the fused kernel, and
/// change nothing else about the pass.
pub proof fn packed_passes_differ_in_projection_only(model: Lfm2Model, shape: BatchShape)
    ensures
        ({
            let packed = packed_pass_of(model, shape);
            let plain = batch_pass_of(model, shape);
            let taken = shape.decode_only && !shape.one_kernel && !plain.use_fp8;
            &&& packed.attention.projection == QkvProjection::Packed <==> taken
            &&& kernel_is_fed(packed)
            &&& packed.attention.kernel == plain.attention.kernel
            &&& !taken ==> packed == plain
            &&& packed == (Pass { attention: packed.attention, ..plain })
        }),
{
}

/// How the decode executor runs a batch: every row reads the cache, gets logits and a token.
/// Contexts are split exactly where more than one split is asked for outside the fused kernel.
pub proof fn executor_passes_pick_a_token_per_row(
    model: Lfm2Model,
    prefill_rows: bool,
    one_kernel: bool,
    splits: usize,
)
    ensures
        ({
            let pass = executor_pass_of(model, prefill_rows, one_kernel, splits);
            let kernel = pass.attention.kernel;
            &&& kernel_is_fed(pass)
            &&& kernel is FusedRaggedPaged <==> one_kernel
            &&& kernel is RaggedSplit <==> !one_kernel && splits > 1
            &&& kernel is RaggedSplit ==> kernel == (AttentionKernel::RaggedSplit { splits })
            &&& kernel is RaggedFast <==> !one_kernel && splits <= 1
            &&& pass.attention.projection == QkvProjection::Separate
            &&& pass.use_fp8 <==> model.decode_fp8_enabled && !prefill_rows
            &&& !pass.fuse_norms && pass.fuse_activation
            &&& pass.conv == ConvKernel::Segmented
            &&& pass.head == HeadRows::All
            &&& pass.argmax
        }),
{
}

} // verus!
