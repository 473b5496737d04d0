//! Judging fp8 products of real activations against their bf16 reference.
use vstd::prelude::*;

use crate::bf16::{widen, Bf16};
use crate::float::{F32, F64};
use crate::model::quantization::{ScalarScale, ScaleStrategy};

verus! {

/// What a site should run in, judged by its own products alone.
#[derive(Clone, Copy, Debug, PartialEq, Eq, Structural)]
pub enum LocalPrecisionRecommendation {
    Bf16,
    Fp8Tensorwide,
}

/// How far an fp8 product is from its bf16 reference.
#[derive(Clone, Copy, Debug, PartialEq, Eq, Structural)]
pub struct GemmErrorMetrics {
    pub values: usize,
    pub nrmse: F64,
    pub cosine: F64,
    pub max_abs_error: F32,
    pub max_relative_error: F32,
    pub rms_error: F64,
    pub output_rms_ratio: F64,
    pub non_finite_values: usize,
}

impl GemmErrorMetrics {
    /// Every output finite, cosine at least 0.995, relative error at most 0.10.
    pub open spec fn passes_screen(self) -> bool {
        &&& self.non_finite_values == 0
        &&& self.cosine.is_at_least(F64 { bits: 0x3fef_d70a_3d70_a3d7 })
        &&& (F64 { bits: 0x3fb9_9999_9999_999a }).is_at_least(self.nrmse)
    }

    pub fn passes_local_screen(self) -> (r: bool)
        ensures
            r == self.passes_screen(),
    {
        self.non_finite_values == 0 && self.cosine.at_least(F64 { bits: 0x3fef_d70a_3d70_a3d7 })
            && (F64 { bits: 0x3fb9_9999_9999_999a }).at_least(self.nrmse)
    }
}

/// One pair of scales, tried.
#[derive(Clone, Copy, Debug, PartialEq, Eq, Structural)]
pub struct GemmScaleTrial {
    pub activation_strategy: ScaleStrategy,
    pub weight_strategy: ScaleStrategy,
    pub activation_scale: ScalarScale,
    pub weight_scale: ScalarScale,
    pub activation_clipping_count: u64,
    pub activation_clipping_fraction: F64,
    pub weight_clipping_count: u64,
    pub weight_clipping_fraction: F64,
    pub metrics: GemmErrorMetrics,
    pub passes_local_screen: bool,
}

/// All trials of one site, and the verdict.
#[derive(Debug)]
pub struct GemmSiteErrorReport {
    pub site: String,
    pub activation_site: String,
    pub weight_site: String,
    pub samples: usize,
    pub m: usize,
    pub n: usize,
    pub k: usize,
    pub trials: Vec<GemmScaleTrial>,
    pub selected_trial: Option<usize>,
    pub recommendation: LocalPrecisionRecommendation,
}

impl GemmSiteErrorReport {
    pub open spec fn selection_in_range(self) -> bool {
        self.selected_trial matches Some(selected) ==> selected < self.trials@.len()
    }
}

/// The verdicts on all sites.
#[derive(Debug)]
pub struct Fp8GemmErrorReport {
    pub schema_version: u32,
    pub input_source: &'static str,
    pub accumulation: &'static str,
    pub local_screen: &'static str,
    pub sites: Vec<GemmSiteErrorReport>,
}

impl Fp8GemmErrorReport {
    pub fn new(sites: Vec<GemmSiteErrorReport>) -> (r: Self)
        ensures
            r.schema_version == 1,
            r.input_source@ == "bounded_real_teacher_forced_decode_m1_activations"@,
            r.accumulation@ == "cuBLASLt_FP32_compute_BF16_output"@,
            r.local_screen@ == "cosine>=0.995_and_nrmse<=0.10_and_all_outputs_finite"@,
            r.sites == sites,
    {
        Fp8GemmErrorReport {
            schema_version: 1,
            input_source: "bounded_real_teacher_forced_decode_m1_activations",
            accumulation: "cuBLASLt_FP32_compute_BF16_output",
            local_screen: "cosine>=0.995_and_nrmse<=0.10_and_all_outputs_finite",
            sites,
        }
    }
}

#[derive(Clone, Copy, Debug, PartialEq, Eq, Structural)]
pub enum AnalysisError {
    /// No decode activations were sampled for the site.
    NoSamples,
    /// The sampled activations do not fit the weight, or two outputs differ in length.
    ShapeMismatch,
}

/// The strategies, in the order in which they are tried.
pub open spec fn strategy_order() -> Seq<ScaleStrategy> {
    seq![ScaleStrategy::Amax, ScaleStrategy::P99_99, ScaleStrategy::P99_9]
}

/// One pair of strategies to try.
#[derive(Clone, Copy, Debug, PartialEq, Eq, Structural)]
pub struct TrialStrategies {
    pub weight: ScaleStrategy,
    pub activation: ScaleStrategy,
}

fn strategy_at(index: usize) -> (r: ScaleStrategy)
    requires
        index < 3,
    ensures
        r == strategy_order()[index as int],
{
    match index {
        0 => ScaleStrategy::Amax,
        1 => ScaleStrategy::P99_99,
        _ => ScaleStrategy::P99_9,
    }
}

/// The trials to run on a site: every activation strategy for each weight strategy. The
/// samples have to exist and to match the weight's columns.
pub fn plan_trials(rows: usize, feature_size: usize, weight_columns: usize) -> (r: Result<
    Vec<TrialStrategies>,
    AnalysisError,
>)
    ensures
        match r {
            Ok(trials) => {
                &&& rows > 0
                &&& weight_columns == feature_size
                &&& trials@ == Seq::new(
                    9,
                    |i: int|
                        TrialStrategies {
                            weight: strategy_order()[i / 3],
                            activation: strategy_order()[i % 3],
                        },
                )
            },
            Err(e) => e == (if rows == 0 {
                AnalysisError::NoSamples
            } else {
                AnalysisError::ShapeMismatch
            }) && (rows == 0 || weight_columns != feature_size),
        },
{
    if rows == 0 {
        return Err(AnalysisError::NoSamples);
    }
    if weight_columns != feature_size {
        return Err(AnalysisError::ShapeMismatch);
    }
    let mut trials: Vec<TrialStrategies> = Vec::new();
    let mut index: usize = 0;
    while index < 9
        invariant
            index <= 9,
            trials@ == Seq::new(
                index as nat,
                |i: int|
                    TrialStrategies {
                        weight: strategy_order()[i / 3],
                        activation: strategy_order()[i % 3],
                    },
            ),
        decreases 9 - index,
    {
        let trial = TrialStrategies {
            weight: strategy_at(index / 3),
            activation: strategy_at(index % 3),
        };
        trials.push(trial);
        index = index + 1;
        assert(trials@ =~= Seq::new(
            index as nat,
            |i: int|
                TrialStrategies {
                    weight: strategy_order()[i / 3],
                    activation: strategy_order()[i % 3],
                },
        ));
    }
    Ok(trials)
}

/// `left` is a better trial than `right`: smaller error, or the same error and larger
/// cosine.
pub open spec fn is_better(left: GemmErrorMetrics, right: GemmErrorMetrics) -> bool {
    left.nrmse.total_order() < right.nrmse.total_order() || (left.nrmse.total_order()
        == right.nrmse.total_order() && left.cosine.total_order() > right.cosine.total_order())
}

/// `index` is the first of the best trials that pass the screen.
pub open spec fn is_selected(trials: Seq<GemmScaleTrial>, index: int) -> bool {
    &&& 0 <= index < trials.len()
    &&& trials[index].passes_local_screen
    &&& forall|j: int|
        0 <= j < trials.len() && (#[trigger] trials[j]).passes_local_screen ==> !is_better(
            trials[j].metrics,
            trials[index].metrics,
        ) && (j < index ==> is_better(trials[index].metrics, trials[j].metrics))
}

fn better(left: &GemmErrorMetrics, right: &GemmErrorMetrics) -> (r: bool)
    ensures
        r == is_better(*left, *right),
{
    let a: i64 = left.nrmse.total_order_key();
    let b: i64 = right.nrmse.total_order_key();
    a < b || (a == b && left.cosine.total_order_key() > right.cosine.total_order_key())
}

/// The trial to use, if any passes the screen.
pub fn select_trial(trials: &Vec<GemmScaleTrial>) -> (r: Option<usize>)
    ensures
        match r {
            Some(index) => is_selected(trials@, index as int),
            None => forall|j: int|
                0 <= j < trials@.len() ==> !(#[trigger] trials@[j]).passes_local_screen,
        },
{
    let mut best: Option<usize> = None;
    let mut index: usize = 0;
    while index < trials.len()
        invariant
            index <= trials@.len(),
            match best {
                Some(b) => b < index && is_selected(trials@.take(index as int), b as int),
                None => forall|j: int|
                    0 <= j < index ==> !(#[trigger] trials@[j]).passes_local_screen,
            },
        decreases trials@.len() - index,
    {
        let ghost sofar = trials@.take(index as int);
        let ghost upto = trials@.take(index + 1);
        proof {
            assert forall|j: int| 0 <= j < index implies sofar[j] == trials@[j] by {}
            assert forall|j: int| 0 <= j <= index implies upto[j] == trials@[j] by {}
        }
        if trials[index].passes_local_screen {
            match best {
                Some(b) => {
                    if better(&trials[index].metrics, &trials[b].metrics) {
                        proof {
                            assert forall|j: int|
                                0 <= j < upto.len() && (
                                #[trigger] upto[j]).passes_local_screen implies !is_better(
                                upto[j].metrics,
                                upto[index as int].metrics,
                            ) && (j < index ==> is_better(
                                upto[index as int].metrics,
                                upto[j].metrics,
                            )) by {
                                if j < index {
                                    assert(sofar[j].passes_local_screen);
                                }
                            }
                        }
                        best = Some(index);
                    } else {
                        proof {
                            assert forall|j: int|
                                0 <= j < upto.len() && (
                                #[trigger] upto[j]).passes_local_screen implies !is_better(
                                upto[j].metrics,
                                upto[b as int].metrics,
                            ) && (j < b ==> is_better(upto[b as int].metrics, upto[j].metrics)) by {
                                if j < index {
                                    assert(sofar[j].passes_local_screen);
                                }
                            }
                        }
                    }
                },
                None => {
                    best = Some(index);
                },
            }
        } else {
            proof {
                if let Some(b) = best {
                    assert forall|j: int|
                        0 <= j < upto.len() && (
                        #[trigger] upto[j]).passes_local_screen implies !is_better(
                        upto[j].metrics,
                        upto[b as int].metrics,
                    ) && (j < b ==> is_better(upto[b as int].metrics, upto[j].metrics)) by {
                        assert(sofar[j].passes_local_screen);
                    }
                }
            }
        }
        index = index + 1;
    }
    assert(trials@.take(index as int) =~= trials@);
    best
}

/// The verdict on a site, from its trials.
pub fn conclude_site(
    site: String,
    activation_site: String,
    weight_site: String,
    rows: usize,
    n: usize,
    k: usize,
    trials: Vec<GemmScaleTrial>,
) -> (r: GemmSiteErrorReport)
    ensures
        r.site == site,
        r.activation_site == activation_site,
        r.weight_site == weight_site,
        r.samples == rows,
        r.m == rows,
        r.n == n,
        r.k == k,
        r.trials == trials,
        r.selection_in_range(),
        match r.selected_trial {
            Some(index) => is_selected(trials@, index as int) && r.recommendation
                == LocalPrecisionRecommendation::Fp8Tensorwide,
            None => (forall|j: int|
                0 <= j < trials@.len() ==> !(#[trigger] trials@[j]).passes_local_screen)
                && r.recommendation == LocalPrecisionRecommendation::Bf16,
        },
{
    let selected_trial = select_trial(&trials);
    let recommendation = if selected_trial.is_some() {
        LocalPrecisionRecommendation::Fp8Tensorwide
    } else {
        LocalPrecisionRecommendation::Bf16
    };
    GemmSiteErrorReport {
        site,
        activation_site,
        weight_site,
        samples: rows,
        m: rows,
        n,
        k,
        trials,
        selected_trial,
        recommendation,
    }
}

/// Output pairs that error sums run over, and how many were left out.
#[derive(Debug)]
pub struct ComparedOutputs {
    /// Positions at which both outputs are finite, in order.
    pub positions: Vec<usize>,
    pub non_finite_values: usize,
}

pub open spec fn both_finite(reference: Seq<Bf16>, candidate: Seq<Bf16>, index: int) -> bool {
    reference[index].finite() && candidate[index].finite()
}

pub open spec fn finite_positions(reference: Seq<Bf16>, candidate: Seq<Bf16>, upto: int) -> Seq<usize>
    decreases upto,
{
    if upto <= 0 {
        Seq::empty()
    } else if both_finite(reference, candidate, upto - 1) {
        finite_positions(reference, candidate, upto - 1).push((upto - 1) as usize)
    } else {
        finite_positions(reference, candidate, upto - 1)
    }
}

/// Pairs up two outputs of a product for its error sums.
pub fn compare_outputs(reference: &[Bf16], candidate: &[Bf16]) -> (r: Result<
    ComparedOutputs,
    AnalysisError,
>)
    ensures
        match r {
            Ok(compared) => {
                &&& reference@.len() > 0
                &&& reference@.len() == candidate@.len()
                &&& compared.positions@ == finite_positions(
                    reference@,
                    candidate@,
                    reference@.len() as int,
                )
                &&& compared.positions@.len() + compared.non_finite_values == reference@.len()
            },
            Err(e) => e == AnalysisError::ShapeMismatch && (reference@.len() == 0
                || reference@.len() != candidate@.len()),
        },
{
    if reference.len() == 0 || reference.len() != candidate.len() {
        return Err(AnalysisError::ShapeMismatch);
    }
    let mut positions: Vec<usize> = Vec::new();
    let mut non_finite_values: usize = 0;
    let mut index: usize = 0;
    while index < reference.len()
        invariant
            index <= reference@.len(),
            reference@.len() == candidate@.len(),
            positions@ == finite_positions(reference@, candidate@, index as int),
            positions@.len() + non_finite_values == index,
        decreases reference@.len() - index,
    {
        let left: F32 = widen(reference[index]);
        let right: F32 = widen(candidate[index]);
        if left.is_finite() && right.is_finite() {
            positions.push(index);
        } else {
            non_finite_values = non_finite_values + 1;
        }
        index = index + 1;
    }
    Ok(ComparedOutputs { positions, non_finite_values })
}

/// No passing trial beats the selected one, and the selected one beats every passing trial
/// before it.
pub proof fn selected_trial_is_unbeaten(trials: Seq<GemmScaleTrial>, index: int, other: int)
    requires
        is_selected(trials, index),
        0 <= other < trials.len(),
        trials[other].passes_local_screen,
    ensures
        !is_better(trials[other].metrics, trials[index].metrics),
        other < index ==> is_better(trials[index].metrics, trials[other].metrics),
{
}

} // verus!
