//! Scales, per-site policies and precision classes of the fp8 weights.
use vstd::prelude::*;

use crate::float::{F32, F64};
use crate::model::fp8_analysis::{Fp8GemmErrorReport, LocalPrecisionRecommendation};
#[allow(unused_imports)]
use crate::model::fp8_analysis::GemmSiteErrorReport;
use crate::text::{contains_text, ends_with_text, text_eq};
#[allow(unused_imports)]
use crate::text::{occurs, occurs_at};

verus! {

/// Which magnitude a tensor is clipped at before it is scaled to fp8.
#[derive(Clone, Copy, Debug, PartialEq, Eq, Structural)]
pub enum ScaleStrategy {
    Amax,
    P99_99,
    P99_9,
}

/// A clipping magnitude and the two multipliers that follow from it.
#[derive(Clone, Copy, Debug, PartialEq, Eq, Structural)]
pub struct ScalarScale {
    pub clip_amax: F32,
    pub quantize_multiplier: F32,
    pub dequantize_multiplier: F32,
}

/// The scales of one tensor for every clipping magnitude.
#[derive(Clone, Copy, Debug, PartialEq, Eq, Structural)]
pub struct TensorwideE4m3ScaleCandidates {
    pub max: ScalarScale,
    pub p99: ScalarScale,
    pub p99_9: ScalarScale,
    pub p99_99: ScalarScale,
}

impl TensorwideE4m3ScaleCandidates {
    pub open spec fn of(self, strategy: ScaleStrategy) -> ScalarScale {
        match strategy {
            ScaleStrategy::Amax => self.max,
            ScaleStrategy::P99_99 => self.p99_99,
            ScaleStrategy::P99_9 => self.p99_9,
        }
    }

    pub fn get(self, strategy: ScaleStrategy) -> (r: ScalarScale)
        ensures
            r == self.of(strategy),
    {
        match strategy {
            ScaleStrategy::Amax => self.max,
            ScaleStrategy::P99_99 => self.p99_99,
            ScaleStrategy::P99_9 => self.p99_9,
        }
    }
}

/// The scale of a tensor that has nothing to scale: clip nothing, multiply by one.
pub open spec fn identity_scale_value() -> ScalarScale {
    ScalarScale {
        clip_amax: F32 { bits: 0 },
        quantize_multiplier: F32 { bits: 0x3f80_0000 },
        dequantize_multiplier: F32 { bits: 0x3f80_0000 },
    }
}

/// The identity scale, for a clipping magnitude that is not a positive finite number;
/// nothing for one whose multipliers have to be computed.
pub fn identity_scale(clip_amax: F32) -> (r: Option<ScalarScale>)
    ensures
        r == (if clip_amax.finite() && !(F32 { bits: 0 }).is_at_least(clip_amax) {
            None
        } else {
            Some(identity_scale_value())
        }),
{
    if clip_amax.is_finite() && !(F32 { bits: 0 }).at_least(clip_amax) {
        None
    } else {
        Some(
            ScalarScale {
                clip_amax: F32 { bits: 0 },
                quantize_multiplier: F32 { bits: 0x3f80_0000 },
                dequantize_multiplier: F32 { bits: 0x3f80_0000 },
            },
        )
    }
}

/// Scales of an fp8 weight and of the activations it is multiplied with.
#[derive(Clone, Copy, Debug, PartialEq, Eq, Structural)]
pub struct SiteScales {
    pub activation: ScalarScale,
    pub weight: ScalarScale,
}

/// What the policy says of one linear projection.
#[derive(Debug)]
pub struct Fp8SitePolicy {
    pub site: String,
    pub enabled: bool,
    pub activation_strategy: ScaleStrategy,
    pub weight_strategy: ScaleStrategy,
    pub activation_scale: ScalarScale,
    pub weight_scale: ScalarScale,
    pub local_nrmse: F64,
    pub local_cosine: F64,
    pub expected_decode_saving_us: F64,
}

#[verifier::ext_equal]
pub struct SitePolicyView {
    pub site: Seq<char>,
    pub enabled: bool,
    pub activation_strategy: ScaleStrategy,
    pub weight_strategy: ScaleStrategy,
    pub scales: SiteScales,
    pub local_nrmse: F64,
    pub local_cosine: F64,
    pub expected_decode_saving_us: F64,
}

impl View for Fp8SitePolicy {
    type V = SitePolicyView;

    open spec fn view(&self) -> SitePolicyView {
        SitePolicyView {
            site: self.site@,
            enabled: self.enabled,
            activation_strategy: self.activation_strategy,
            weight_strategy: self.weight_strategy,
            scales: SiteScales { activation: self.activation_scale, weight: self.weight_scale },
            local_nrmse: self.local_nrmse,
            local_cosine: self.local_cosine,
            expected_decode_saving_us: self.expected_decode_saving_us,
        }
    }
}

impl Fp8SitePolicy {
    pub fn scales(&self) -> (r: SiteScales)
        ensures
            r == self@.scales,
    {
        SiteScales { activation: self.activation_scale, weight: self.weight_scale }
    }

    pub fn duplicate(&self) -> (r: Self)
        ensures
            r@ == self@,
    {
        Fp8SitePolicy {
            site: self.site.clone(),
            enabled: self.enabled,
            activation_strategy: self.activation_strategy,
            weight_strategy: self.weight_strategy,
            activation_scale: self.activation_scale,
            weight_scale: self.weight_scale,
            local_nrmse: self.local_nrmse,
            local_cosine: self.local_cosine,
            expected_decode_saving_us: self.expected_decode_saving_us,
        }
    }
}

/// Which projections decode in fp8, and with which scales.
#[derive(Debug)]
pub struct Fp8PrecisionPolicy {
    pub schema_version: u32,
    pub name: String,
    pub source: String,
    pub decode_only: bool,
    pub sites: Vec<Fp8SitePolicy>,
}

#[verifier::ext_equal]
pub struct PolicyView {
    pub schema_version: u32,
    pub name: Seq<char>,
    pub source: Seq<char>,
    pub decode_only: bool,
    pub sites: Seq<SitePolicyView>,
}

pub open spec fn site_views(sites: Seq<Fp8SitePolicy>) -> Seq<SitePolicyView> {
    Seq::new(sites.len(), |i: int| sites[i]@)
}

impl View for Fp8PrecisionPolicy {
    type V = PolicyView;

    open spec fn view(&self) -> PolicyView {
        PolicyView {
            schema_version: self.schema_version,
            name: self.name@,
            source: self.source@,
            decode_only: self.decode_only,
            sites: site_views(self.sites@),
        }
    }
}

/// The policy entry that a characterised site gives, if one of its trials was selected.
pub open spec fn local_site(site: GemmSiteErrorReport) -> Option<SitePolicyView> {
    match site.selected_trial {
        Some(selected) => {
            let trial = site.trials@[selected as int];
            Some(
                SitePolicyView {
                    site: site.site@,
                    enabled: site.recommendation == LocalPrecisionRecommendation::Fp8Tensorwide,
                    activation_strategy: trial.activation_strategy,
                    weight_strategy: trial.weight_strategy,
                    scales: SiteScales {
                        activation: trial.activation_scale,
                        weight: trial.weight_scale,
                    },
                    local_nrmse: trial.metrics.nrmse,
                    local_cosine: trial.metrics.cosine,
                    expected_decode_saving_us: decode_saving(site.site@),
                },
            )
        },
        None => None,
    }
}

pub open spec fn local_sites(sites: Seq<GemmSiteErrorReport>) -> Seq<SitePolicyView>
    decreases sites.len(),
{
    if sites.len() == 0 {
        Seq::empty()
    } else {
        match local_site(sites.last()) {
            Some(site) => local_sites(sites.drop_last()).push(site),
            None => local_sites(sites.drop_last()),
        }
    }
}

/// Microseconds that decoding a site in fp8 is expected to save per token, from the
/// measured kernel times and their speed-ups.
pub open spec fn decode_saving(site: Seq<char>) -> F64 {
    if occurs_at(site, "mlp.gate_up"@, site.len() - "mlp.gate_up"@.len()) {
        F64 { bits: 0x4058_b7bd_7e01_ec7d }
    } else if occurs_at(site, "mlp.down"@, site.len() - "mlp.down"@.len()) {
        F64 { bits: 0x4043_e077_394b_2d60 }
    } else if site == "lm_head"@ {
        F64 { bits: 0x4082_6942_ebd1_42ec }
    } else if occurs(site, ".conv."@) {
        F64 { bits: 0x402d_3333_3333_3333 }
    } else if occurs(site, ".attention."@) {
        F64 { bits: 0x4011_bae1_47ae_147b }
    } else {
        F64 { bits: 0 }
    }
}

pub fn expected_decode_saving_us(site: &str) -> (r: F64)
    ensures
        r == decode_saving(site@),
{
    if ends_with_text(site, "mlp.gate_up") {
        F64 { bits: 0x4058_b7bd_7e01_ec7d }
    } else if ends_with_text(site, "mlp.down") {
        F64 { bits: 0x4043_e077_394b_2d60 }
    } else if text_eq(site, "lm_head") {
        F64 { bits: 0x4082_6942_ebd1_42ec }
    } else if contains_text(site, ".conv.") {
        F64 { bits: 0x402d_3333_3333_3333 }
    } else if contains_text(site, ".attention.") {
        F64 { bits: 0x4011_bae1_47ae_147b }
    } else {
        F64 { bits: 0 }
    }
}

impl Fp8PrecisionPolicy {
    /// The policy that enables every site whose fp8 product passed the local screen.
    pub fn from_local_errors(report: &Fp8GemmErrorReport, name: String) -> (r: Self)
        requires
            forall|i: int|
                0 <= i < report.sites@.len() ==> (#[trigger] report.sites@[i]).selection_in_range(),
        ensures
            r@ == (PolicyView {
                schema_version: 1,
                name: name@,
                source: "real_checkpoint_teacher_forced_gemm_error"@,
                decode_only: true,
                sites: local_sites(report.sites@),
            }),
    {
        let mut sites: Vec<Fp8SitePolicy> = Vec::new();
        let mut index: usize = 0;
        assert(site_views(sites@) =~= Seq::<SitePolicyView>::empty());
        while index < report.sites.len()
            invariant
                index <= report.sites@.len(),
                forall|i: int|
                    0 <= i < report.sites@.len() ==> (
                    #[trigger] report.sites@[i]).selection_in_range(),
                site_views(sites@) == local_sites(report.sites@.take(index as int)),
            decreases report.sites@.len() - index,
        {
            let site = &report.sites[index];
            proof {
                let upto = report.sites@.take(index + 1);
                assert(upto.drop_last() =~= report.sites@.take(index as int));
                assert(upto.last() == *site);
            }
            if let Some(selected) = site.selected_trial {
                let trial = &site.trials[selected];
                let ghost before = sites@;
                sites.push(
                    Fp8SitePolicy {
                        site: site.site.clone(),
                        enabled: site.recommendation == LocalPrecisionRecommendation::Fp8Tensorwide,
                        activation_strategy: trial.activation_strategy,
                        weight_strategy: trial.weight_strategy,
                        activation_scale: trial.activation_scale,
                        weight_scale: trial.weight_scale,
                        local_nrmse: trial.metrics.nrmse,
                        local_cosine: trial.metrics.cosine,
                        expected_decode_saving_us: expected_decode_saving_us(site.site.as_str()),
                    },
                );
                proof {
                    assert(site_views(sites@) =~= site_views(before).push(
                        local_site(*site)->Some_0,
                    ));
                }
            }
            index = index + 1;
        }
        assert(report.sites@.take(index as int) =~= report.sites@);
        Fp8PrecisionPolicy {
            schema_version: 1,
            name,
            source: "real_checkpoint_teacher_forced_gemm_error".to_owned(),
            decode_only: true,
            sites,
        }
    }

    /// Disables every site outside `class`.
    pub fn retain_class(&mut self, class: PrecisionClass)
        ensures
            final(self)@ == (PolicyView {
                sites: Seq::new(
                    old(self)@.sites.len(),
                    |i: int|
                        SitePolicyView {
                            enabled: old(self)@.sites[i].enabled && class.covers(
                                old(self)@.sites[i].site,
                            ),
                            ..old(self)@.sites[i]
                        },
                ),
                ..old(self)@
            }),
    {
        let ghost before = self.sites@;
        let mut index: usize = 0;
        while index < self.sites.len()
            invariant
                index <= before.len(),
                before == old(self).sites@,
                self.sites@.len() == before.len(),
                self.schema_version == old(self).schema_version,
                self.name == old(self).name,
                self.source == old(self).source,
                self.decode_only == old(self).decode_only,
                forall|i: int| index <= i < before.len() ==> #[trigger] self.sites@[i] == before[i],
                forall|i: int|
                    0 <= i < index ==> (#[trigger] self.sites@[i])@ == (SitePolicyView {
                        enabled: before[i].enabled && class.covers(before[i].site@),
                        ..before[i]@
                    }),
            decreases before.len() - index,
        {
            let keep: bool = self.sites[index].enabled && class.includes(
                self.sites[index].site.as_str(),
            );
            self.sites[index].enabled = keep;
            index = index + 1;
        }
        proof {
            assert(self@.sites =~= Seq::new(
                old(self)@.sites.len(),
                |i: int|
                    SitePolicyView {
                        enabled: old(self)@.sites[i].enabled && class.covers(
                            old(self)@.sites[i].site,
                        ),
                        ..old(self)@.sites[i]
                    },
            ));
        }
    }
}

/// Groups of sites that precision is decided for together, each including the one before.
#[derive(Clone, Copy, Debug, PartialEq, Eq, Structural)]
pub enum PrecisionClass {
    Mlp,
    MlpLmHead,
    MlpLmHeadConv,
    All,
}

impl PrecisionClass {
    pub open spec fn covers(self, site: Seq<char>) -> bool {
        let mlp = occurs(site, ".mlp."@);
        let lm_head = site == "lm_head"@;
        let conv = occurs(site, ".conv."@);
        match self {
            PrecisionClass::Mlp => mlp,
            PrecisionClass::MlpLmHead => mlp || lm_head,
            PrecisionClass::MlpLmHeadConv => mlp || lm_head || conv,
            PrecisionClass::All => true,
        }
    }

    /// How many groups the class holds.
    pub open spec fn breadth(self) -> int {
        match self {
            PrecisionClass::Mlp => 1,
            PrecisionClass::MlpLmHead => 2,
            PrecisionClass::MlpLmHeadConv => 3,
            PrecisionClass::All => 4,
        }
    }

    pub fn includes(self, site: &str) -> (r: bool)
        ensures
            r == self.covers(site@),
    {
        let mlp = contains_text(site, ".mlp.");
        let lm_head = text_eq(site, "lm_head");
        let conv = contains_text(site, ".conv.");
        match self {
            PrecisionClass::Mlp => mlp,
            PrecisionClass::MlpLmHead => mlp || lm_head,
            PrecisionClass::MlpLmHeadConv => mlp || lm_head || conv,
            PrecisionClass::All => true,
        }
    }
}

/// A broader class covers every site of a narrower one.
pub proof fn broader_classes_cover_more(narrow: PrecisionClass, broad: PrecisionClass, site: Seq<char>)
    requires
        narrow.breadth() <= broad.breadth(),
        narrow.covers(site),
    ensures
        broad.covers(site),
{
}

} // verus!
