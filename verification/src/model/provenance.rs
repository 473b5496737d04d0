//! Where installed scales come from: from the trials that were measured, by way of a policy.
use vstd::prelude::*;

use crate::model::fp8_analysis::{GemmSiteErrorReport, LocalPrecisionRecommendation};
use crate::model::quantization::{
    local_sites, Fp8PrecisionPolicy, Fp8SitePolicy, PrecisionClass, SitePolicyView, SiteScales,
};
use crate::model::weights::{
    enabled_scales, repeats_site, sites_are_distinct, weights_with_policy, LinearWeight,
    OperatorWeights, WeightsView,
};
use crate::text::{decimal_text, occurs};

verus! {

/// A policy entry shows what it holds: the scale of activations is that of activations, and the
/// scale of weights that of weights.
pub proof fn policy_entries_show_their_fields(site: Fp8SitePolicy, policy: Fp8PrecisionPolicy)
    ensures
        site@.site == site.site@,
        site@.enabled == site.enabled,
        site@.activation_strategy == site.activation_strategy,
        site@.weight_strategy == site.weight_strategy,
        site@.scales.activation == site.activation_scale,
        site@.scales.weight == site.weight_scale,
        site@.local_nrmse == site.local_nrmse,
        site@.local_cosine == site.local_cosine,
        site@.expected_decode_saving_us == site.expected_decode_saving_us,
        policy@.sites.len() == policy.sites@.len(),
        policy@.schema_version == policy.schema_version,
        policy@.name == policy.name@,
        policy@.source == policy.source@,
        policy@.decode_only == policy.decode_only,
        forall|i: int|
            0 <= i < policy.sites@.len() ==> #[trigger] policy@.sites[i] == policy.sites@[i]@,
{
}

proof fn lemma_earlier_sites_stay(reports: Seq<GemmSiteErrorReport>, upto: int, j: int)
    requires
        0 <= upto <= reports.len(),
        0 <= j < local_sites(reports.take(upto)).len(),
    ensures
        local_sites(reports.take(upto)).len() <= local_sites(reports).len(),
        local_sites(reports)[j] == local_sites(reports.take(upto))[j],
    decreases reports.len() - upto,
{
    if upto < reports.len() {
        let more = reports.take(upto + 1);
        assert(more.drop_last() =~= reports.take(upto));
        lemma_earlier_sites_stay(reports, upto + 1, j);
    } else {
        assert(reports.take(upto) =~= reports);
    }
}

/// A policy quantises with what was measured: for every report with a selected trial it holds
/// one entry, in the order of the reports, with the activation scale and the weight scale of
/// that very trial, its strategies and its errors. It is enabled exactly if the report
/// recommends fp8.
pub proof fn policies_hold_the_measured_scales(reports: Seq<GemmSiteErrorReport>, i: int)
    requires
        0 <= i < reports.len(),
        reports[i].selected_trial is Some,
    ensures
        ({
            let trial = reports[i].trials@[reports[i].selected_trial->Some_0 as int];
            let place = local_sites(reports.take(i)).len() as int;
            let entry = local_sites(reports)[place];
            &&& place < local_sites(reports).len()
            &&& entry.site == reports[i].site@
            &&& entry.scales.activation == trial.activation_scale
            &&& entry.scales.weight == trial.weight_scale
            &&& entry.activation_strategy == trial.activation_strategy
            &&& entry.weight_strategy == trial.weight_strategy
            &&& entry.local_nrmse == trial.metrics.nrmse
            &&& entry.local_cosine == trial.metrics.cosine
            &&& entry.enabled <==> reports[i].recommendation
                == LocalPrecisionRecommendation::Fp8Tensorwide
        }),
{
    let more = reports.take(i + 1);
    assert(more.drop_last() =~= reports.take(i));
    assert(more.last() == reports[i]);
    let place = local_sites(reports.take(i)).len() as int;
    lemma_earlier_sites_stay(reports, i + 1, place);
}

/// A policy holds nothing else: every entry comes from a report with a selected trial.
pub proof fn policies_hold_nothing_unmeasured(reports: Seq<GemmSiteErrorReport>, j: int) -> (i: int)
    requires
        0 <= j < local_sites(reports).len(),
    ensures
        0 <= i < reports.len(),
        reports[i].selected_trial is Some,
        local_sites(reports.take(i)).len() == j,
    decreases reports.len(),
{
    let fewer = reports.drop_last();
    if j < local_sites(fewer).len() {
        let i = policies_hold_nothing_unmeasured(fewer, j);
        assert(fewer.take(i) =~= reports.take(i));
        i
    } else {
        assert(reports.take(reports.len() - 1) =~= fewer);
        reports.len() - 1
    }
}

proof fn lemma_enabled_scales(sites: Seq<SitePolicyView>, name: Seq<char>, j: int)
    requires
        sites_are_distinct(sites),
        0 <= j < sites.len(),
        sites[j].site == name,
    ensures
        enabled_scales(sites, name) == (if sites[j].enabled {
            Some(sites[j].scales)
        } else {
            None::<SiteScales>
        }),
    decreases sites.len(),
{
    let fewer = sites.drop_last();
    if j < sites.len() - 1 {
        assert(!repeats_site(sites, sites.len() - 1));
        assert(sites[j].site != sites.last().site);
        assert forall|i: int| 0 <= i < fewer.len() implies !#[trigger] repeats_site(fewer, i) by {
            if repeats_site(fewer, i) {
                let k = choose|k: int| 0 <= k < i && (#[trigger] fewer[k]).site == fewer[i].site;
                assert(sites[k].site == sites[i].site);
                assert(repeats_site(sites, i));
            }
        }
        lemma_enabled_scales(fewer, name, j);
    }
}

proof fn lemma_unnamed_site(sites: Seq<SitePolicyView>, name: Seq<char>)
    requires
        forall|j: int| 0 <= j < sites.len() ==> (#[trigger] sites[j]).site != name,
    ensures
        enabled_scales(sites, name) is None,
    decreases sites.len(),
{
    if sites.len() > 0 {
        assert(sites[sites.len() - 1].site != name);
        let fewer = sites.drop_last();
        assert forall|j: int| 0 <= j < fewer.len() implies (#[trigger] fewer[j]).site != name by {
            assert(sites[j].site != name);
        }
        lemma_unnamed_site(fewer, name);
    }
}

/// The fp8 copy of a projection is the one that a policy asks for under this name: with the
/// scales of the enabled entry, and none if no entry of that name is enabled.
pub open spec fn is_installed(
    sites: Seq<SitePolicyView>,
    name: Seq<char>,
    before: LinearWeight,
    after: LinearWeight,
) -> bool {
    &&& after.rows == before.rows
    &&& after.columns == before.columns
    &&& forall|j: int|
        0 <= j < sites.len() && (#[trigger] sites[j]).site == name ==> after.fp8 == (
        if sites[j].enabled {
            Some(sites[j].scales)
        } else {
            None::<SiteScales>
        })
    &&& (forall|j: int| 0 <= j < sites.len() ==> (#[trigger] sites[j]).site != name)
        ==> after.fp8 is None
}

proof fn lemma_is_installed(
    sites: Seq<SitePolicyView>,
    name: Seq<char>,
    before: LinearWeight,
    after: LinearWeight,
)
    requires
        sites_are_distinct(sites),
        after == (LinearWeight { fp8: enabled_scales(sites, name), ..before }),
    ensures
        is_installed(sites, name, before, after),
{
    assert forall|j: int| 0 <= j < sites.len() && (#[trigger] sites[j]).site == name implies after.fp8
        == (if sites[j].enabled {
        Some(sites[j].scales)
    } else {
        None::<SiteScales>
    }) by {
        lemma_enabled_scales(sites, name, j);
    }
    if forall|j: int| 0 <= j < sites.len() ==> (#[trigger] sites[j]).site != name {
        lemma_unnamed_site(sites, name);
    }
}

/// Installing a policy gives every projection the copy that is asked for under its own name,
/// layer by layer, and the head that under its own; nothing else about the weights changes.
pub proof fn installing_follows_the_names(
    weights: WeightsView,
    sites: Seq<SitePolicyView>,
    index: int,
)
    requires
        sites_are_distinct(sites),
        0 <= index < weights.layers.len(),
    ensures
        ({
            let after = weights_with_policy(weights, sites);
            let own = weights.layers[index];
            let new = after.layers[index];
            let layer = "layers."@ + decimal_text(index as nat);
            &&& after.layers.len() == weights.layers.len()
            &&& after.final_norm_elements == weights.final_norm_elements
            &&& after.inv_freq_elements == weights.inv_freq_elements
            &&& is_installed(sites, "lm_head"@, weights.embedding, after.embedding)
            &&& is_installed(sites, layer + ".mlp.gate_up"@, own.gate_up, new.gate_up)
            &&& is_installed(sites, layer + ".mlp.down"@, own.down, new.down)
            &&& new.operator_norm_elements == own.operator_norm_elements
            &&& new.ffn_norm_elements == own.ffn_norm_elements
            &&& match (own.operator, new.operator) {
                (OperatorWeights::Conv(c), OperatorWeights::Conv(d)) => {
                    &&& is_installed(sites, layer + ".conv.input"@, c.input, d.input)
                    &&& is_installed(sites, layer + ".conv.output"@, c.output, d.output)
                    &&& d.convolution_elements == c.convolution_elements
                },
                (OperatorWeights::Attention(a), OperatorWeights::Attention(b)) => {
                    &&& is_installed(sites, layer + ".attention.query"@, a.query, b.query)
                    &&& is_installed(sites, layer + ".attention.key"@, a.key, b.key)
                    &&& is_installed(sites, layer + ".attention.value"@, a.value, b.value)
                    &&& is_installed(sites, layer + ".attention.output"@, a.output, b.output)
                    &&& b.query_norm_elements == a.query_norm_elements
                    &&& b.key_norm_elements == a.key_norm_elements
                },
                _ => false,
            }
        }),
{
    let after = weights_with_policy(weights, sites);
    let own = weights.layers[index];
    let new = after.layers[index];
    let layer = "layers."@ + decimal_text(index as nat);
    lemma_is_installed(sites, "lm_head"@, weights.embedding, after.embedding);
    lemma_is_installed(sites, layer + ".mlp.gate_up"@, own.gate_up, new.gate_up);
    lemma_is_installed(sites, layer + ".mlp.down"@, own.down, new.down);
    match (own.operator, new.operator) {
        (OperatorWeights::Conv(c), OperatorWeights::Conv(d)) => {
            lemma_is_installed(sites, layer + ".conv.input"@, c.input, d.input);
            lemma_is_installed(sites, layer + ".conv.output"@, c.output, d.output);
        },
        (OperatorWeights::Attention(a), OperatorWeights::Attention(b)) => {
            lemma_is_installed(sites, layer + ".attention.query"@, a.query, b.query);
            lemma_is_installed(sites, layer + ".attention.key"@, a.key, b.key);
            lemma_is_installed(sites, layer + ".attention.value"@, a.value, b.value);
            lemma_is_installed(sites, layer + ".attention.output"@, a.output, b.output);
        },
        _ => {},
    }
}

/// From measurement to weight: installing the policy of a set of reports quantises the head, and
/// likewise the down projection of a layer, with the scales that its selected trial was measured
/// with, if its report recommends fp8.
pub proof fn installed_scales_were_measured(
    weights: WeightsView,
    reports: Seq<GemmSiteErrorReport>,
    i: int,
    index: int,
)
    requires
        sites_are_distinct(local_sites(reports)),
        0 <= index < weights.layers.len(),
        0 <= i < reports.len(),
        reports[i].selected_trial is Some,
        reports[i].recommendation == LocalPrecisionRecommendation::Fp8Tensorwide,
    ensures
        ({
            let trial = reports[i].trials@[reports[i].selected_trial->Some_0 as int];
            let after = weights_with_policy(weights, local_sites(reports));
            let copy = Some(
                SiteScales { activation: trial.activation_scale, weight: trial.weight_scale },
            );
            &&& reports[i].site@ == "lm_head"@ ==> after.embedding.fp8 == copy
            &&& reports[i].site@ == "layers."@ + decimal_text(index as nat) + ".mlp.down"@
                ==> after.layers[index].down.fp8 == copy
            &&& reports[i].site@ == "layers."@ + decimal_text(index as nat) + ".mlp.gate_up"@
                ==> after.layers[index].gate_up.fp8 == copy
        }),
{
    policies_hold_the_measured_scales(reports, i);
    let sites = local_sites(reports);
    let entry = sites[local_sites(reports.take(i)).len() as int];
    assert(entry.site == reports[i].site@);
    installing_follows_the_names(weights, sites, index);
}

/// What the classes of a study are made of: the feed-forward sites, then the head, then the
/// convolutions, and at last everything.
pub proof fn classes_add_one_group_each(site: Seq<char>)
    ensures
        PrecisionClass::Mlp.covers(site) <==> occurs(site, ".mlp."@),
        PrecisionClass::MlpLmHead.covers(site) && !PrecisionClass::Mlp.covers(site) <==> site
            == "lm_head"@ && !occurs(site, ".mlp."@),
        PrecisionClass::MlpLmHeadConv.covers(site) && !PrecisionClass::MlpLmHead.covers(site) <==> (
        occurs(site, ".conv."@) && !occurs(site, ".mlp."@) && site != "lm_head"@),
        PrecisionClass::All.covers(site),
        PrecisionClass::Mlp.breadth() < PrecisionClass::MlpLmHead.breadth(),
        PrecisionClass::MlpLmHead.breadth() < PrecisionClass::MlpLmHeadConv.breadth(),
        PrecisionClass::MlpLmHeadConv.breadth() < PrecisionClass::All.breadth(),
{
}

} // verus!
