//! The precision study: calibration and evaluation limits, quality gates, the search for a
//! policy and the comparison of generated texts.
//!
//! The application runs the model and forms the metrics; what is run, and what follows from
//! the metrics, is decided here.
use vstd::prelude::*;

use vstd::string::StringExecFns;

use crate::engine::corpus::decode_sample_positions;
#[allow(unused_imports)]
use crate::engine::corpus::{sample_count, sample_position};
use crate::float::F64;
use crate::model::quantization::{Fp8PrecisionPolicy, Fp8SitePolicy, PrecisionClass};
#[allow(unused_imports)]
use crate::model::quantization::{PolicyView, SitePolicyView};
use crate::num::min_usize;
#[allow(unused_imports)]
use crate::num::min_int;
#[allow(unused_imports)]
use crate::order::is_ranking;
use crate::order::rank_descending;
use crate::text::{decimal, text_eq};
#[allow(unused_imports)]
use crate::text::decimal_text;

verus! {

#[derive(Clone, Copy, Debug, PartialEq, Eq, Structural)]
pub enum StudyError {
    NoSequences,
    NoSequenceTokens,
    SequenceExceedsModel { tokens: usize, limit: usize },
    NoEvaluationSequences,
    /// Evaluated sequences have at least 64 tokens and fit the model.
    EvaluationTokens { limit: usize },
    MissingSequences { found: usize, wanted: usize },
    NoEnabledSites,
    SequenceTooShort,
    TokenCountOverflow,
    /// No hidden row of the final normalisation was captured.
    MissingFinalNorm,
    /// A ranked site is not in the policy.
    MissingSite,
    EverySiteRejected,
}

/// Checks a validation run.
pub fn check_validation(sequences: usize, max_tokens: usize, limit: usize) -> (r: Result<
    (),
    StudyError,
>)
    ensures
        r == (if sequences == 0 {
            Err::<(), StudyError>(StudyError::NoEvaluationSequences)
        } else if !(64 <= max_tokens <= limit) {
            Err::<(), StudyError>(StudyError::EvaluationTokens { limit })
        } else {
            Ok::<(), StudyError>(())
        }),
{
    if sequences == 0 {
        Err(StudyError::NoEvaluationSequences)
    } else if max_tokens < 64 || max_tokens > limit {
        Err(StudyError::EvaluationTokens { limit })
    } else {
        Ok(())
    }
}

/// Checks a calibration run with its evaluation.
pub fn check_calibration(
    max_sequences: usize,
    max_sequence_tokens: usize,
    evaluation_sequences: usize,
    evaluation_max_tokens: usize,
    limit: usize,
) -> (r: Result<(), StudyError>)
    ensures
        r == (if max_sequences == 0 {
            Err::<(), StudyError>(StudyError::NoSequences)
        } else if max_sequence_tokens == 0 {
            Err::<(), StudyError>(StudyError::NoSequenceTokens)
        } else if max_sequence_tokens > limit {
            Err::<(), StudyError>(
                StudyError::SequenceExceedsModel { tokens: max_sequence_tokens, limit },
            )
        } else if evaluation_sequences == 0 {
            Err::<(), StudyError>(StudyError::NoEvaluationSequences)
        } else if !(64 <= evaluation_max_tokens <= limit) {
            Err::<(), StudyError>(StudyError::EvaluationTokens { limit })
        } else {
            Ok::<(), StudyError>(())
        }),
{
    if max_sequences == 0 {
        return Err(StudyError::NoSequences);
    }
    if max_sequence_tokens == 0 {
        return Err(StudyError::NoSequenceTokens);
    }
    if max_sequence_tokens > limit {
        return Err(StudyError::SequenceExceedsModel { tokens: max_sequence_tokens, limit });
    }
    check_validation(evaluation_sequences, evaluation_max_tokens, limit)
}

/// Checks that a corpus gave all sequences that were asked for.
pub fn check_sequences(found: usize, wanted: usize) -> (r: Result<(), StudyError>)
    ensures
        r == (if found == wanted {
            Ok::<(), StudyError>(())
        } else {
            Err::<(), StudyError>(StudyError::MissingSequences { found, wanted })
        }),
{
    if found == wanted {
        Ok(())
    } else {
        Err(StudyError::MissingSequences { found, wanted })
    }
}

/// Checks that an installed policy enables anything.
pub fn check_enabled(sites: usize) -> (r: Result<usize, StudyError>)
    ensures
        r == (if sites > 0 {
            Ok::<usize, StudyError>(sites)
        } else {
            Err::<usize, StudyError>(StudyError::NoEnabledSites)
        }),
{
    if sites > 0 {
        Ok(sites)
    } else {
        Err(StudyError::NoEnabledSites)
    }
}

/// One sampled decode step: the tokens from `skip_from` on up to `position` run first,
/// unsampled; the token at `position` is the sampled one.
#[derive(Clone, Copy, Debug, PartialEq, Eq, Structural)]
pub struct SampledDecode {
    pub skip_from: usize,
    pub position: usize,
}

/// The products that the sampled positions are computed from fit.
pub open spec fn positions_fit(tokens: int, requested: int) -> bool {
    tokens >= 2 ==> (tokens - 2) * (sample_count(tokens, requested) - 1) <= usize::MAX
}

/// The sampled decode step at an index.
pub open spec fn sampled_decode(tokens: int, requested: int, index: int) -> SampledDecode {
    let count = sample_count(tokens, requested);
    SampledDecode {
        skip_from: if index == 0 {
            0
        } else {
            (sample_position(tokens, count, index - 1) + 1) as usize
        },
        position: sample_position(tokens, count, index) as usize,
    }
}

/// Plans the sampled decode steps of a sequence.
pub fn plan_sampled_decodes(tokens: usize, requested: usize) -> (r: Vec<SampledDecode>)
    requires
        positions_fit(tokens as int, requested as int),
    ensures
        r@ == Seq::new(
            sample_count(tokens as int, requested as int) as nat,
            |i: int| sampled_decode(tokens as int, requested as int, i),
        ),
{
    let positions = decode_sample_positions(tokens, requested);
    let ghost count = sample_count(tokens as int, requested as int);
    let mut steps: Vec<SampledDecode> = Vec::new();
    let mut cursor: usize = 0;
    let mut index: usize = 0;
    while index < positions.len()
        invariant
            index <= positions@.len(),
            count == sample_count(tokens as int, requested as int),
            positions@ == Seq::new(
                count as nat,
                |i: int| sample_position(tokens as int, count, i) as usize,
            ),
            index == 0 ==> cursor == 0,
            index > 0 ==> cursor == positions@[index - 1] + 1,
            steps@ == Seq::new(
                index as nat,
                |i: int| sampled_decode(tokens as int, requested as int, i),
            ),
        decreases positions@.len() - index,
    {
        let position: usize = positions[index];
        proof {
            crate::engine::corpus::sample_positions_are_spread(
                tokens as int,
                requested as int,
                index as int,
            );
            if index > 0 {
                crate::engine::corpus::sample_positions_are_spread(
                    tokens as int,
                    requested as int,
                    index - 1,
                );
            }
        }
        steps.push(SampledDecode { skip_from: cursor, position });
        cursor = position + 1;
        index = index + 1;
        assert(steps@ =~= Seq::new(
            index as nat,
            |i: int| sampled_decode(tokens as int, requested as int, i),
        ));
    }
    steps
}

/// Sampled decode steps run the tokens of a sequence in order, each once, up to the last.
pub proof fn sampled_decodes_run_in_order(tokens: int, requested: int, index: int)
    requires
        tokens <= usize::MAX,
        requested >= 0,
        0 <= index < sample_count(tokens, requested),
    ensures
        ({
            let step = sampled_decode(tokens, requested, index);
            let count = sample_count(tokens, requested);
            &&& step.skip_from <= step.position < tokens
            &&& index == 0 ==> step.skip_from == 0
            &&& index + 1 < count ==> sampled_decode(tokens, requested, index + 1).skip_from
                == step.position + 1
            &&& index + 1 == count ==> step.position == tokens - 1
        }),
{
    crate::engine::corpus::sample_positions_are_spread(tokens, requested, index);
    if index > 0 {
        crate::engine::corpus::sample_positions_are_spread(tokens, requested, index - 1);
    }
}

/// How one sequence is evaluated: every token but the last is run, and the one behind it is
/// the target.
#[derive(Debug)]
pub struct EvaluationPlan {
    /// All source tokens so far, with this sequence.
    pub source_tokens: usize,
    pub inputs: usize,
    /// Inputs at which hidden rows are captured.
    pub captured: Vec<usize>,
}

/// Plans the full evaluation of a sequence.
pub fn plan_evaluation(tokens: usize, source_tokens: usize) -> (r: Result<EvaluationPlan, StudyError>)
    requires
        positions_fit(tokens - 1, 8),
    ensures
        match r {
            Ok(plan) => {
                let count = sample_count(tokens - 1, 8);
                &&& tokens >= 2
                &&& plan.source_tokens == source_tokens + tokens
                &&& plan.inputs == tokens - 1
                &&& plan.captured@ == Seq::new(
                    count as nat,
                    |i: int| sample_position(tokens - 1, count, i) as usize,
                )
            },
            Err(e) => e == (if tokens < 2 {
                StudyError::SequenceTooShort
            } else {
                StudyError::TokenCountOverflow
            }) && (tokens < 2 || source_tokens + tokens > usize::MAX),
        },
{
    if tokens < 2 {
        return Err(StudyError::SequenceTooShort);
    }
    match source_tokens.checked_add(tokens) {
        Some(total) => Ok(
            EvaluationPlan {
                source_tokens: total,
                inputs: tokens - 1,
                captured: decode_sample_positions(tokens - 1, 8),
            },
        ),
        None => Err(StudyError::TokenCountOverflow),
    }
}

impl EvaluationPlan {
    /// Whether the hidden rows of an input are captured.
    pub fn captures(&self, input: usize) -> (r: bool)
        ensures
            r == self.captured@.contains(input),
    {
        let mut index: usize = 0;
        while index < self.captured.len()
            invariant
                index <= self.captured@.len(),
                forall|i: int| 0 <= i < index ==> self.captured@[i] != input,
            decreases self.captured@.len() - index,
        {
            if self.captured[index] == input {
                assert(self.captured@[index as int] == input);
                return true;
            }
            index = index + 1;
        }
        false
    }
}

/// Counts a sequence of a sampled evaluation.
pub fn count_sampled_sequence(tokens: usize, source_tokens: usize) -> (r: Result<usize, StudyError>)
    ensures
        r == (if tokens < 3 {
            Err::<usize, StudyError>(StudyError::SequenceTooShort)
        } else if source_tokens + tokens > usize::MAX {
            Err::<usize, StudyError>(StudyError::TokenCountOverflow)
        } else {
            Ok::<usize, StudyError>((source_tokens + tokens) as usize)
        }),
{
    if tokens < 3 {
        return Err(StudyError::SequenceTooShort);
    }
    match source_tokens.checked_add(tokens) {
        Some(total) => Ok(total),
        None => Err(StudyError::TokenCountOverflow),
    }
}

/// Bits of 0.10: largest relative error of a hidden row.
pub const HIDDEN_ERROR_LIMIT: u64 = 0x3fb9_9999_9999_999a;

/// Bits of 0.99: smallest cosine of a hidden row.
pub const HIDDEN_COSINE_FLOOR: u64 = 0x3fef_ae14_7ae1_47ae;

/// Bits of 0.01: largest relative growth of the loss.
pub const LOSS_LIMIT: u64 = 0x3f84_7ae1_47ae_147b;

/// Bits of 0.005: largest relative growth of the loss during the search.
pub const SEARCH_LOSS_LIMIT: u64 = 0x3f74_7ae1_47ae_147b;

/// Bits of 0.05: largest mean divergence during the search.
pub const SEARCH_DIVERGENCE_LIMIT: u64 = 0x3fa9_9999_9999_999a;

/// Bits of 0.12: largest relative error of the final hidden row during the search.
pub const SEARCH_ERROR_LIMIT: u64 = 0x3fbe_b851_eb85_1eb8;

/// Bits of 0.985: smallest cosine of the final hidden row during the search.
pub const SEARCH_COSINE_FLOOR: u64 = 0x3fef_851e_b851_eb85;

/// Quality of the hidden rows at one point.
#[derive(Clone, Copy, Debug, PartialEq, Eq, Structural)]
pub struct PointQuality {
    pub non_finite_values: u64,
    pub nrmse: F64,
    pub cosine: F64,
}

impl PointQuality {
    /// The point has drifted too far from the reference.
    pub open spec fn drifted(self) -> bool {
        self.non_finite_values > 0 || self.nrmse.is_above(F64 { bits: HIDDEN_ERROR_LIMIT }) || (F64 {
            bits: HIDDEN_COSINE_FLOOR,
        }).is_above(self.cosine)
    }

    fn has_drifted(&self) -> (r: bool)
        ensures
            r == self.drifted(),
    {
        self.non_finite_values > 0 || self.nrmse.above(F64 { bits: HIDDEN_ERROR_LIMIT }) || (F64 {
            bits: HIDDEN_COSINE_FLOOR,
        }).above(self.cosine)
    }
}

/// No point has drifted.
pub open spec fn none_drifted(points: Seq<PointQuality>) -> bool {
    forall|i: int| 0 <= i < points.len() ==> !(#[trigger] points[i]).drifted()
}

/// Whether a policy keeps the quality of the reference.
pub fn passes_quality_gate(
    non_finite_logits: u64,
    relative_nll_delta: F64,
    propagation: &Vec<PointQuality>,
) -> (r: bool)
    ensures
        r == (non_finite_logits == 0 && (F64 { bits: LOSS_LIMIT }).is_at_least(relative_nll_delta)
            && none_drifted(propagation@)),
{
    let mut drifted: bool = false;
    let mut index: usize = 0;
    while index < propagation.len()
        invariant
            index <= propagation@.len(),
            drifted == !(forall|i: int|
                0 <= i < index ==> !(#[trigger] propagation@[i]).drifted()),
        decreases propagation@.len() - index,
    {
        if propagation[index].has_drifted() {
            assert(propagation@[index as int].drifted());
            drifted = true;
        }
        index = index + 1;
    }
    non_finite_logits == 0 && (F64 { bits: LOSS_LIMIT }).at_least(relative_nll_delta) && !drifted
}

/// The policy under another name, with other sites enabled.
pub open spec fn with_enabled(policy: PolicyView, name: Seq<char>, flags: Seq<bool>) -> PolicyView {
    PolicyView {
        name,
        sites: Seq::new(
            policy.sites.len(),
            |i: int| SitePolicyView { enabled: flags[i], ..policy.sites[i] },
        ),
        ..policy
    }
}

/// Copies a policy under another name, with other sites enabled.
pub fn copy_with_enabled(policy: &Fp8PrecisionPolicy, name: String, flags: &Vec<bool>) -> (r:
    Fp8PrecisionPolicy)
    requires
        flags@.len() == policy@.sites.len(),
    ensures
        r@ == with_enabled(policy@, name@, flags@),
{
    let mut sites: Vec<Fp8SitePolicy> = Vec::new();
    let mut index: usize = 0;
    while index < policy.sites.len()
        invariant
            index <= policy.sites@.len(),
            flags@.len() == policy.sites@.len(),
            sites@.len() == index,
            forall|i: int|
                0 <= i < index ==> (#[trigger] sites@[i])@ == (SitePolicyView {
                    enabled: flags@[i],
                    ..policy.sites@[i]@
                }),
        decreases policy.sites@.len() - index,
    {
        let mut site = policy.sites[index].duplicate();
        site.enabled = flags[index];
        sites.push(site);
        index = index + 1;
    }
    let r = Fp8PrecisionPolicy {
        schema_version: policy.schema_version,
        name,
        source: policy.source.clone(),
        decode_only: policy.decode_only,
        sites,
    };
    assert(r@.sites =~= with_enabled(policy@, name@, flags@).sites);
    r
}

/// The enabled flags of a policy.
pub open spec fn enabled_flags(policy: PolicyView) -> Seq<bool> {
    Seq::new(policy.sites.len(), |i: int| policy.sites[i].enabled)
}

fn flags_of(policy: &Fp8PrecisionPolicy) -> (r: Vec<bool>)
    ensures
        r@ == enabled_flags(policy@),
{
    let mut flags: Vec<bool> = Vec::new();
    let mut index: usize = 0;
    while index < policy.sites.len()
        invariant
            index <= policy.sites@.len(),
            flags@.len() == index,
            forall|i: int| 0 <= i < index ==> #[trigger] flags@[i] == policy.sites@[i].enabled,
        decreases policy.sites@.len() - index,
    {
        flags.push(policy.sites[index].enabled);
        index = index + 1;
    }
    assert(flags@ =~= enabled_flags(policy@));
    flags
}

fn no_flags(count: usize) -> (r: Vec<bool>)
    ensures
        r@ == Seq::new(count as nat, |i: int| false),
{
    let mut flags: Vec<bool> = Vec::new();
    flags.resize(count, false);
    assert(flags@ =~= Seq::new(count as nat, |i: int| false));
    flags
}

/// The policy that enables one site alone.
pub fn single_site_policy(base: &Fp8PrecisionPolicy, index: usize) -> (r: Fp8PrecisionPolicy)
    requires
        index < base@.sites.len(),
    ensures
        r@ == with_enabled(
            base@,
            "single_site_"@ + base@.sites[index as int].site,
            Seq::new(base@.sites.len(), |i: int| i == index),
        ),
{
    let mut flags = no_flags(base.sites.len());
    flags.set(index, true);
    assert(flags@ =~= Seq::new(base@.sites.len(), |i: int| i == index));
    let mut name = "single_site_".to_owned();
    name.append(base.sites[index].site.as_str());
    copy_with_enabled(base, name, &flags)
}

/// How many sequences a study of single sites, or a search, evaluates.
pub fn subset_length(sequences: usize, most: usize) -> (r: usize)
    ensures
        r == min_int(sequences as int, most as int),
{
    min_usize(sequences, most)
}

/// None of the first `upto` points is the final normalisation.
pub open spec fn lacks_final_norm(points: Seq<String>, upto: int) -> bool {
    forall|i: int| 0 <= i < upto ==> (#[trigger] points[i])@ != "final_rms_norm"@
}

/// The captured point of the final normalisation.
pub fn find_final_norm(points: &Vec<String>) -> (r: Result<usize, StudyError>)
    ensures
        match r {
            Ok(index) => {
                &&& index < points@.len()
                &&& points@[index as int]@ == "final_rms_norm"@
                &&& lacks_final_norm(points@, index as int)
            },
            Err(e) => e == StudyError::MissingFinalNorm && lacks_final_norm(
                points@,
                points@.len() as int,
            ),
        },
{
    let mut index: usize = 0;
    while index < points.len()
        invariant
            index <= points@.len(),
            forall|i: int| 0 <= i < index ==> (#[trigger] points@[i])@ != "final_rms_norm"@,
        decreases points@.len() - index,
    {
        if text_eq(points[index].as_str(), "final_rms_norm") {
            return Ok(index);
        }
        index = index + 1;
    }
    Err(StudyError::MissingFinalNorm)
}

/// What was measured with a candidate site enabled.
#[derive(Clone, Copy, Debug, PartialEq, Eq, Structural)]
pub struct SearchMeasurement {
    pub non_finite_logits: u64,
    pub relative_nll_delta: F64,
    pub mean_logit_kl: F64,
    pub final_hidden_nrmse: F64,
    pub final_hidden_cosine: F64,
}

impl SearchMeasurement {
    /// The search keeps the site.
    pub open spec fn accepted(self) -> bool {
        &&& self.non_finite_logits == 0
        &&& (F64 { bits: SEARCH_LOSS_LIMIT }).is_at_least(self.relative_nll_delta)
        &&& (F64 { bits: SEARCH_DIVERGENCE_LIMIT }).is_at_least(self.mean_logit_kl)
        &&& (F64 { bits: SEARCH_ERROR_LIMIT }).is_at_least(self.final_hidden_nrmse)
        &&& self.final_hidden_cosine.is_at_least(F64 { bits: SEARCH_COSINE_FLOOR })
    }

    pub fn is_accepted(&self) -> (r: bool)
        ensures
            r == self.accepted(),
    {
        self.non_finite_logits == 0 && (F64 { bits: SEARCH_LOSS_LIMIT }).at_least(
            self.relative_nll_delta,
        ) && (F64 { bits: SEARCH_DIVERGENCE_LIMIT }).at_least(self.mean_logit_kl) && (F64 {
            bits: SEARCH_ERROR_LIMIT,
        }).at_least(self.final_hidden_nrmse) && self.final_hidden_cosine.at_least(
            F64 { bits: SEARCH_COSINE_FLOOR },
        )
    }
}

/// A concluded step of the search.
#[derive(Clone, Copy, Debug, PartialEq, Eq, Structural)]
pub struct SearchStep {
    /// The candidate, by its place among the studied sites.
    pub candidate: usize,
    /// The candidate's place in the policy.
    pub site: usize,
    pub accepted: bool,
    pub enabled_sites_after_step: usize,
}

/// A greedy search for the sites to enable: candidates are tried in order of their scores,
/// and each is kept if the quality holds.
#[derive(Debug)]
pub struct PolicySearch {
    pub selected: Fp8PrecisionPolicy,
    pub candidates: Vec<String>,
    pub ranked: Vec<usize>,
    /// The place in the policy of the candidate that is being tried.
    pub trying: Option<usize>,
    pub steps: Vec<SearchStep>,
}

/// How many of the first `upto` sites are enabled.
pub open spec fn enabled_count(sites: Seq<SitePolicyView>, upto: int) -> int
    decreases upto,
{
    if upto <= 0 {
        0
    } else {
        enabled_count(sites, upto - 1) + if sites[upto - 1].enabled {
            1int
        } else {
            0int
        }
    }
}

/// The last verdict on a site, among the concluded steps: not enabled if there is none.
pub open spec fn last_verdict(steps: Seq<SearchStep>, site: int) -> bool
    decreases steps.len(),
{
    if steps.len() == 0 {
        false
    } else if steps.last().site == site {
        steps.last().accepted
    } else {
        last_verdict(steps.drop_last(), site)
    }
}

/// `place` is the first site of this name, or the number of sites if there is none.
pub open spec fn is_site_place(sites: Seq<SitePolicyView>, name: Seq<char>, place: int) -> bool {
    &&& 0 <= place <= sites.len()
    &&& forall|i: int| 0 <= i < place ==> (#[trigger] sites[i]).site != name
    &&& place < sites.len() ==> sites[place].site == name
}

pub open spec fn score_keys(scores: Seq<F64>) -> Seq<i64> {
    Seq::new(scores.len(), |i: int| scores[i].total_order() as i64)
}

impl PolicySearch {
    /// All candidates are known, one step is concluded per tried candidate, and a site is
    /// enabled exactly if it is being tried or was accepted when it was last tried.
    pub open spec fn well_formed(self) -> bool {
        &&& self.ranked@.len() == self.candidates@.len()
        &&& forall|i: int|
            0 <= i < self.ranked@.len() ==> #[trigger] self.ranked@[i] < self.candidates@.len()
        &&& self.steps@.len() <= self.ranked@.len()
        &&& self.trying is Some ==> self.steps@.len() < self.ranked@.len() && self.trying->Some_0
            < self.selected@.sites.len()
        &&& forall|i: int|
            0 <= i < self.selected@.sites.len() ==> (#[trigger] self.selected@.sites[i]).enabled
                == (self.trying is Some && self.trying->Some_0 == i || last_verdict(self.steps@, i))
        &&& forall|i: int|
            0 <= i < self.steps@.len() ==> (#[trigger] self.steps@[i]).candidate == self.ranked@[i]
    }

    /// Starts a search with no site enabled. Candidates with larger scores come first;
    /// equal scores stay in their order.
    pub fn begin(base: &Fp8PrecisionPolicy, candidates: Vec<String>, scores: &Vec<F64>) -> (r: Self)
        requires
            candidates@.len() == scores@.len(),
        ensures
            r.well_formed(),
            r.selected@ == with_enabled(
                base@,
                "policy_auto_selective"@,
                Seq::new(base@.sites.len(), |i: int| false),
            ),
            r.candidates@ == candidates@,
            is_ranking(score_keys(scores@), r.ranked@),
            r.trying is None,
            r.steps@.len() == 0,
    {
        let flags = no_flags(base.sites.len());
        let selected = copy_with_enabled(base, "policy_auto_selective".to_owned(), &flags);
        let mut keys: Vec<i64> = Vec::new();
        let mut index: usize = 0;
        while index < scores.len()
            invariant
                index <= scores@.len(),
                keys@ == score_keys(scores@.take(index as int)),
            decreases scores@.len() - index,
        {
            keys.push(scores[index].total_order_key());
            index = index + 1;
            assert(keys@ =~= score_keys(scores@.take(index as int)));
        }
        assert(scores@.take(index as int) =~= scores@);
        let ranked = rank_descending(&keys);
        PolicySearch { selected, candidates, ranked, trying: None, steps: Vec::new() }
    }

    /// Enables the next candidate's site, so that the policy can be measured with it; gives
    /// the candidate, or nothing when all have been tried.
    pub fn try_next(&mut self) -> (r: Result<Option<usize>, StudyError>)
        requires
            old(self).well_formed(),
            old(self).trying is None,
        ensures
            final(self).well_formed(),
            final(self).candidates@ == old(self).candidates@,
            final(self).ranked@ == old(self).ranked@,
            final(self).steps@ == old(self).steps@,
            ({
                let tried = old(self).steps@.len() as int;
                if tried == old(self).ranked@.len() {
                    &&& r == Ok::<Option<usize>, StudyError>(None)
                    &&& final(self).selected@ == old(self).selected@
                    &&& final(self).trying is None
                } else {
                    let candidate = old(self).ranked@[tried];
                    exists|place: int|
                        {
                            &&& #[trigger] is_site_place(
                                old(self).selected@.sites,
                                old(self).candidates@[candidate as int]@,
                                place,
                            )
                            &&& if place == old(self).selected@.sites.len() {
                                &&& r == Err::<Option<usize>, StudyError>(StudyError::MissingSite)
                                &&& final(self).selected@ == old(self).selected@
                                &&& final(self).trying is None
                            } else {
                                &&& r == Ok::<Option<usize>, StudyError>(Some(candidate))
                                &&& final(self).selected@ == with_site(
                                    old(self).selected@,
                                    place,
                                    true,
                                )
                                &&& final(self).trying == Some(place as usize)
                            }
                        }
                }
            }),
    {
        if self.steps.len() == self.ranked.len() {
            return Ok(None);
        }
        let candidate: usize = self.ranked[self.steps.len()];
        let ghost before = self.selected@;
        let ghost name = self.candidates@[candidate as int]@;
        let mut place: usize = 0;
        while place < self.selected.sites.len() && !text_eq(
            self.selected.sites[place].site.as_str(),
            self.candidates[candidate].as_str(),
        )
            invariant
                place <= self.selected.sites@.len(),
                candidate < self.candidates@.len(),
                name == self.candidates@[candidate as int]@,
                before == self.selected@,
                forall|i: int| 0 <= i < place ==> (#[trigger] before.sites[i]).site != name,
                *self == *old(self),
            decreases self.selected.sites@.len() - place,
        {
            assert(before.sites[place as int].site == self.selected.sites@[place as int].site@);
            place = place + 1;
        }
        proof {
            if place < before.sites.len() {
                assert(before.sites[place as int].site
                    == self.selected.sites@[place as int].site@);
            }
            assert(is_site_place(before.sites, name, place as int));
        }
        if place == self.selected.sites.len() {
            return Err(StudyError::MissingSite);
        }
        self.selected.sites[place].enabled = true;
        self.trying = Some(place);
        assert(self.selected@.sites =~= with_site(before, place as int, true).sites);
        Ok(Some(candidate))
    }

    /// Concludes the trial of a candidate: its site stays enabled if the quality holds.
    pub fn conclude(&mut self, measured: SearchMeasurement) -> (r: SearchStep)
        requires
            old(self).well_formed(),
            old(self).trying is Some,
        ensures
            final(self).well_formed(),
            final(self).candidates@ == old(self).candidates@,
            final(self).ranked@ == old(self).ranked@,
            final(self).trying is None,
            final(self).selected@ == with_site(
                old(self).selected@,
                old(self).trying->Some_0 as int,
                measured.accepted(),
            ),
            r == (SearchStep {
                candidate: old(self).ranked@[old(self).steps@.len() as int],
                site: old(self).trying->Some_0,
                accepted: measured.accepted(),
                enabled_sites_after_step: enabled_count(
                    final(self).selected@.sites,
                    final(self).selected@.sites.len() as int,
                ) as usize,
            }),
            final(self).steps@ == old(self).steps@.push(r),
    {
        let ghost before = self.selected@;
        let candidate: usize = self.ranked[self.steps.len()];
        let site: usize = match self.trying {
            Some(site) => site,
            None => 0,
        };
        let accepted = measured.is_accepted();
        if !accepted {
            self.selected.sites[site].enabled = false;
        }
        assert(self.selected@.sites =~= with_site(before, site as int, accepted).sites);
        let enabled_sites_after_step: usize = count_enabled(&self.selected);
        let step = SearchStep { candidate, site, accepted, enabled_sites_after_step };
        let ghost earlier = self.steps@;
        self.steps.push(step);
        self.trying = None;
        proof {
            assert(self.steps@.drop_last() =~= earlier);
            assert forall|i: int| 0 <= i < self.selected@.sites.len() implies (
            #[trigger] self.selected@.sites[i]).enabled == last_verdict(self.steps@, i) by {
                if i != site {
                    assert(self.selected@.sites[i] == before.sites[i]);
                }
            }
        }
        step
    }

    /// The policy that was found.
    pub fn finish(self) -> (r: Result<Fp8PrecisionPolicy, StudyError>)
        ensures
            match r {
                Ok(policy) => policy@ == self.selected@ && enabled_count(
                    policy@.sites,
                    policy@.sites.len() as int,
                ) > 0,
                Err(e) => e == StudyError::EverySiteRejected && enabled_count(
                    self.selected@.sites,
                    self.selected@.sites.len() as int,
                ) == 0,
            },
    {
        if count_enabled(&self.selected) > 0 {
            Ok(self.selected)
        } else {
            proof {
                lemma_enabled_count(self.selected@.sites, self.selected@.sites.len() as int);
            }
            Err(StudyError::EverySiteRejected)
        }
    }

    /// The names of the accepted candidates, in the order in which they were accepted.
    pub fn accepted_sites(&self) -> (r: Vec<String>)
        requires
            self.well_formed(),
        ensures
            name_views(r@) == accepted_names(
                self.steps@,
                name_views(self.candidates@),
                self.steps@.len() as int,
            ),
    {
        let mut names: Vec<String> = Vec::new();
        let ghost candidates = name_views(self.candidates@);
        let mut index: usize = 0;
        assert(name_views(names@) =~= Seq::<Seq<char>>::empty());
        while index < self.steps.len()
            invariant
                index <= self.steps@.len(),
                candidates == name_views(self.candidates@),
                self.well_formed(),
                name_views(names@) == accepted_names(self.steps@, candidates, index as int),
            decreases self.steps@.len() - index,
        {
            let step = self.steps[index];
            if step.accepted {
                let ghost before = names@;
                names.push(self.candidates[step.candidate].clone());
                assert(name_views(names@) =~= name_views(before).push(
                    candidates[step.candidate as int],
                ));
            }
            index = index + 1;
        }
        names
    }
}

/// The policy with one site switched.
pub open spec fn with_site(policy: PolicyView, place: int, enabled: bool) -> PolicyView {
    PolicyView {
        sites: policy.sites.update(
            place,
            SitePolicyView { enabled, ..policy.sites[place] },
        ),
        ..policy
    }
}

pub open spec fn name_views(names: Seq<String>) -> Seq<Seq<char>> {
    Seq::new(names.len(), |i: int| names[i]@)
}

/// The names of the candidates accepted in the first `upto` steps.
pub open spec fn accepted_names(steps: Seq<SearchStep>, candidates: Seq<Seq<char>>, upto: int) -> Seq<
    Seq<char>,
>
    decreases upto,
{
    if upto <= 0 {
        Seq::empty()
    } else if steps[upto - 1].accepted {
        accepted_names(steps, candidates, upto - 1).push(
            candidates[steps[upto - 1].candidate as int],
        )
    } else {
        accepted_names(steps, candidates, upto - 1)
    }
}

proof fn lemma_enabled_count(sites: Seq<SitePolicyView>, upto: int)
    requires
        0 <= upto,
    ensures
        0 <= enabled_count(sites, upto) <= upto,
    decreases upto,
{
    if upto > 0 {
        lemma_enabled_count(sites, upto - 1);
    }
}

/// Counts the enabled sites of a policy.
pub fn count_enabled(policy: &Fp8PrecisionPolicy) -> (r: usize)
    ensures
        r == enabled_count(policy@.sites, policy@.sites.len() as int),
{
    let mut count: usize = 0;
    let mut index: usize = 0;
    while index < policy.sites.len()
        invariant
            index <= policy.sites@.len(),
            count <= index,
            count == enabled_count(policy@.sites, index as int),
        decreases policy.sites@.len() - index,
    {
        assert(policy@.sites[index as int] == policy.sites@[index as int]@);
        if policy.sites[index].enabled {
            count = count + 1;
        }
        index = index + 1;
    }
    count
}

/// A concluded search enables exactly the sites that it accepted when it last tried them.
pub proof fn search_enables_what_it_accepted(search: PolicySearch, site: int)
    requires
        search.well_formed(),
        search.trying is None,
        0 <= site < search.selected@.sites.len(),
    ensures
        search.selected@.sites[site].enabled <==> last_verdict(search.steps@, site),
{
}

/// The policy restricted to a class of sites, under another name.
pub open spec fn class_policy(base: PolicyView, name: Seq<char>, class: PrecisionClass) -> PolicyView {
    with_enabled(
        base,
        name,
        Seq::new(
            base.sites.len(),
            |i: int| base.sites[i].enabled && class.covers(base.sites[i].site),
        ),
    )
}

fn restrict_to_class(base: &Fp8PrecisionPolicy, name: &str, class: PrecisionClass) -> (r:
    Fp8PrecisionPolicy)
    ensures
        r@ == class_policy(base@, name@, class),
{
    let flags = flags_of(base);
    let mut policy = copy_with_enabled(base, name.to_owned(), &flags);
    policy.retain_class(class);
    assert(policy@.sites =~= class_policy(base@, name@, class).sites);
    policy
}

/// The policy with the sites of the first `count` accepted names enabled.
pub open spec fn frontier_policy(selected: PolicyView, accepted: Seq<Seq<char>>, count: int) -> PolicyView {
    with_enabled(
        selected,
        "policy_frontier_"@ + decimal_text(count as nat),
        Seq::new(
            selected.sites.len(),
            |i: int| accepted.take(count).contains(selected.sites[i].site),
        ),
    )
}

fn names_hold(names: &Vec<String>, upto: usize, name: &str) -> (r: bool)
    requires
        upto <= names@.len(),
    ensures
        r == name_views(names@).take(upto as int).contains(name@),
{
    let ghost views = name_views(names@).take(upto as int);
    let mut index: usize = 0;
    while index < upto
        invariant
            index <= upto <= names@.len(),
            views == name_views(names@).take(upto as int),
            forall|i: int| 0 <= i < index ==> #[trigger] views[i] != name@,
        decreases upto - index,
    {
        assert(views[index as int] == names@[index as int]@);
        if text_eq(names[index].as_str(), name) {
            assert(views[index as int] == name@);
            return true;
        }
        index = index + 1;
    }
    false
}

fn build_frontier(selected: &Fp8PrecisionPolicy, accepted: &Vec<String>, count: usize) -> (r:
    Fp8PrecisionPolicy)
    requires
        count <= accepted@.len(),
    ensures
        r@ == frontier_policy(selected@, name_views(accepted@), count as int),
{
    let ghost names = name_views(accepted@);
    let mut flags: Vec<bool> = Vec::new();
    let mut index: usize = 0;
    while index < selected.sites.len()
        invariant
            index <= selected.sites@.len(),
            count <= accepted@.len(),
            names == name_views(accepted@),
            flags@.len() == index,
            forall|i: int|
                0 <= i < index ==> #[trigger] flags@[i] == names.take(count as int).contains(
                    selected.sites@[i].site@,
                ),
        decreases selected.sites@.len() - index,
    {
        flags.push(names_hold(accepted, count, selected.sites[index].site.as_str()));
        index = index + 1;
    }
    proof {
        assert(flags@ =~= Seq::new(
            selected@.sites.len(),
            |i: int| names.take(count as int).contains(selected@.sites[i].site),
        ));
    }
    let mut name = "policy_frontier_".to_owned();
    let digits = decimal(count as u64);
    name.append(digits.as_str());
    copy_with_enabled(selected, name, &flags)
}

/// The sizes of the frontier policies.
pub open spec fn frontier_sizes() -> Seq<usize> {
    seq![1usize, 2, 4, 8, 12, 16, 24, 32]
}

fn frontier_size(index: usize) -> (r: usize)
    requires
        index < 8,
    ensures
        r == frontier_sizes()[index as int],
{
    match index {
        0 => 1,
        1 => 2,
        2 => 4,
        3 => 8,
        4 => 12,
        5 => 16,
        6 => 24,
        _ => 32,
    }
}

/// The policies of the classes, then the frontier policies among the first `upto` sizes
/// that there are enough accepted sites for.
pub open spec fn listed_policies(
    base: PolicyView,
    selected: PolicyView,
    accepted: Seq<Seq<char>>,
    upto: int,
) -> Seq<PolicyView>
    decreases upto,
{
    if upto <= 0 {
        Seq::empty().push(class_policy(base, "policy_a_mlp"@, PrecisionClass::Mlp)).push(
            class_policy(base, "policy_b_mlp_lm_head"@, PrecisionClass::MlpLmHead),
        ).push(
            class_policy(base, "policy_c_mlp_lm_head_conv"@, PrecisionClass::MlpLmHeadConv),
        ).push(class_policy(base, "policy_d_maximal_local_safe"@, PrecisionClass::All))
    } else if frontier_sizes()[upto - 1] <= accepted.len() {
        listed_policies(base, selected, accepted, upto - 1).push(
            frontier_policy(selected, accepted, frontier_sizes()[upto - 1] as int),
        )
    } else {
        listed_policies(base, selected, accepted, upto - 1)
    }
}

pub open spec fn policy_views(policies: Seq<Fp8PrecisionPolicy>) -> Seq<PolicyView> {
    Seq::new(policies.len(), |i: int| policies[i]@)
}

fn list_policy(policies: &mut Vec<Fp8PrecisionPolicy>, policy: Fp8PrecisionPolicy)
    ensures
        policy_views(final(policies)@) == policy_views(old(policies)@).push(policy@),
{
    policies.push(policy);
    assert(policy_views(policies@) =~= policy_views(old(policies)@).push(policy@));
}

/// Lists the policies that the study evaluates: one per class of sites, the frontier of the
/// search, and the policy that the search found.
pub fn candidate_policies(
    base: &Fp8PrecisionPolicy,
    selected: &Fp8PrecisionPolicy,
    accepted: &Vec<String>,
) -> (r: Vec<Fp8PrecisionPolicy>)
    ensures
        policy_views(r@) == listed_policies(
            base@,
            selected@,
            name_views(accepted@),
            8,
        ).push(selected@),
{
    let ghost names = name_views(accepted@);
    let mut policies: Vec<Fp8PrecisionPolicy> = Vec::new();
    assert(policy_views(policies@) =~= Seq::<PolicyView>::empty());
    list_policy(&mut policies, restrict_to_class(base, "policy_a_mlp", PrecisionClass::Mlp));
    list_policy(
        &mut policies,
        restrict_to_class(base, "policy_b_mlp_lm_head", PrecisionClass::MlpLmHead),
    );
    list_policy(
        &mut policies,
        restrict_to_class(base, "policy_c_mlp_lm_head_conv", PrecisionClass::MlpLmHeadConv),
    );
    list_policy(
        &mut policies,
        restrict_to_class(base, "policy_d_maximal_local_safe", PrecisionClass::All),
    );
    let mut index: usize = 0;
    while index < 8
        invariant
            index <= 8,
            names == name_views(accepted@),
            policy_views(policies@) == listed_policies(base@, selected@, names, index as int),
        decreases 8 - index,
    {
        let size: usize = frontier_size(index);
        if size <= accepted.len() {
            list_policy(&mut policies, build_frontier(selected, accepted, size));
        }
        index = index + 1;
    }
    let flags = flags_of(selected);
    let last = copy_with_enabled(selected, selected.name.clone(), &flags);
    assert(last@.sites =~= selected@.sites);
    list_policy(&mut policies, last);
    policies
}

/// The outcome of a policy's evaluation.
#[derive(Debug)]
pub struct QualityVerdict {
    pub policy_name: String,
    pub passes_quality_gate: bool,
}

/// `place` is the first policy of this name, or the number of policies if there is none.
pub open spec fn is_policy_place(policies: Seq<PolicyView>, name: Seq<char>, place: int) -> bool {
    &&& 0 <= place <= policies.len()
    &&& forall|i: int| 0 <= i < place ==> (#[trigger] policies[i]).name != name
    &&& place < policies.len() ==> policies[place].name == name
}

/// The evaluation at `index` passed, and its policy is at `place`.
pub open spec fn is_eligible(
    verdicts: Seq<QualityVerdict>,
    policies: Seq<PolicyView>,
    index: int,
    place: int,
) -> bool {
    &&& 0 <= index < verdicts.len()
    &&& verdicts[index].passes_quality_gate
    &&& is_policy_place(policies, verdicts[index].policy_name@, place)
    &&& place < policies.len()
}

/// No evaluation of a listed policy passed.
pub open spec fn none_eligible(verdicts: Seq<QualityVerdict>, policies: Seq<PolicyView>) -> bool {
    forall|i: int, p: int| !#[trigger] is_eligible(verdicts, policies, i, p)
}

/// The evaluation at `index`, of the policy at `place`, passed and saves the most; of equal
/// ones it is the last.
pub open spec fn is_best(
    verdicts: Seq<QualityVerdict>,
    policies: Seq<PolicyView>,
    savings: Seq<F64>,
    upto: int,
    index: int,
    place: int,
) -> bool {
    &&& is_eligible(verdicts, policies, index, place)
    &&& index < upto
    &&& forall|i: int, p: int|
        i < upto && #[trigger] is_eligible(verdicts, policies, i, p) ==> savings[p].total_order()
            < savings[place].total_order() || savings[p].total_order()
            == savings[place].total_order() && i <= index
}

fn policy_place(policies: &Vec<Fp8PrecisionPolicy>, name: &str) -> (r: usize)
    ensures
        is_policy_place(policy_views(policies@), name@, r as int),
{
    let ghost views = policy_views(policies@);
    let mut place: usize = 0;
    while place < policies.len() && !text_eq(policies[place].name.as_str(), name)
        invariant
            place <= policies@.len(),
            views == policy_views(policies@),
            forall|i: int| 0 <= i < place ==> (#[trigger] views[i]).name != name@,
        decreases policies@.len() - place,
    {
        assert(views[place as int].name == policies@[place as int].name@);
        place = place + 1;
    }
    assert(place < views.len() ==> views[place as int].name == policies@[place as int].name@);
    place
}

/// Selects the policy to use: of those that keep the quality, the one that is expected to
/// save the most. `savings` holds the expected saving of each policy.
pub fn select_policy(
    verdicts: &Vec<QualityVerdict>,
    policies: &Vec<Fp8PrecisionPolicy>,
    savings: &Vec<F64>,
) -> (r: Option<usize>)
    requires
        savings@.len() == policies@.len(),
    ensures
        match r {
            Some(place) => exists|index: int| #[trigger]
                is_best(
                    verdicts@,
                    policy_views(policies@),
                    savings@,
                    verdicts@.len() as int,
                    index,
                    place as int,
                ),
            None => none_eligible(verdicts@, policy_views(policies@)),
        },
{
    let ghost views = policy_views(policies@);
    let mut best: Option<usize> = None;
    let mut chosen: usize = 0;
    let mut index: usize = 0;
    while index < verdicts.len()
        invariant
            index <= verdicts@.len(),
            views == policy_views(policies@),
            savings@.len() == policies@.len(),
            match best {
                Some(place) => place < policies@.len() && is_best(
                    verdicts@,
                    views,
                    savings@,
                    index as int,
                    chosen as int,
                    place as int,
                ),
                None => forall|i: int, p: int|
                    i < index ==> !#[trigger] is_eligible(verdicts@, views, i, p),
            },
        decreases verdicts@.len() - index,
    {
        let ghost before = best;
        let ghost earlier = chosen;
        if verdicts[index].passes_quality_gate {
            let place: usize = policy_place(policies, verdicts[index].policy_name.as_str());
            if place < policies.len() {
                assert(is_eligible(verdicts@, views, index as int, place as int));
                let better = match best {
                    Some(previous) => savings[place].total_order_key()
                        >= savings[previous].total_order_key(),
                    None => true,
                };
                if better {
                    best = Some(place);
                    chosen = index;
                }
                proof {
                    assert forall|i: int, p: int|
                        i < index + 1 && #[trigger] is_eligible(verdicts@, views, i, p) implies savings@[p].total_order()
                        < savings@[best->Some_0 as int].total_order() || savings@[p].total_order()
                        == savings@[best->Some_0 as int].total_order() && i <= chosen by {
                        if i == index {
                            lemma_place_is_unique(
                                views,
                                verdicts@[i].policy_name@,
                                p,
                                place as int,
                            );
                        }
                    }
                }
            } else {
                assert forall|p: int| !is_eligible(verdicts@, views, index as int, p) by {
                    if is_eligible(verdicts@, views, index as int, p) {
                        lemma_place_is_unique(
                            views,
                            verdicts@[index as int].policy_name@,
                            p,
                            place as int,
                        );
                    }
                }
            }
        }
        index = index + 1;
    }
    best
}

proof fn lemma_place_is_unique(policies: Seq<PolicyView>, name: Seq<char>, a: int, b: int)
    requires
        is_policy_place(policies, name, a),
        is_policy_place(policies, name, b),
    ensures
        a == b,
{
}

/// The study's verdict.
pub fn study_verdict(selected: Option<usize>) -> (r: &'static str)
    ensures
        r@ == (match selected {
            Some(_) => "quality_gate_pass"@,
            None => "quality_gate_reject_all"@,
        }),
{
    match selected {
        Some(_) => "quality_gate_pass",
        None => "quality_gate_reject_all",
    }
}

/// How the texts that the reference and a candidate generate for a prompt agree.
#[derive(Debug)]
pub struct Fp8GreedyPromptDiagnostic {
    pub prompt: String,
    pub bf16_text: String,
    pub candidate_text: String,
    pub bf16_tokens: usize,
    pub candidate_tokens: usize,
    pub first_divergent_token: Option<usize>,
    pub agreement_before_divergence: usize,
    pub exact_sequence_agreement: bool,
    pub output_length_agreement: bool,
}

/// `place` is the first place at which the sequences differ, or at which only one of them
/// goes on.
pub open spec fn diverges_at(a: Seq<u32>, b: Seq<u32>, place: int) -> bool {
    &&& 0 <= place <= a.len()
    &&& place <= b.len()
    &&& forall|i: int| 0 <= i < place ==> #[trigger] a[i] == b[i]
    &&& if place < a.len() && place < b.len() {
        a[place] != b[place]
    } else {
        a.len() != b.len()
    }
}

/// The first place at which two sequences diverge.
pub fn first_divergence(reference: &Vec<u32>, candidate: &Vec<u32>) -> (r: Option<usize>)
    ensures
        match r {
            Some(place) => diverges_at(reference@, candidate@, place as int),
            None => reference@ == candidate@,
        },
{
    let common: usize = min_usize(reference.len(), candidate.len());
    let mut place: usize = 0;
    while place < common
        invariant
            place <= common,
            common == min_int(reference@.len() as int, candidate@.len() as int),
            forall|i: int| 0 <= i < place ==> #[trigger] reference@[i] == candidate@[i],
        decreases common - place,
    {
        if reference[place] != candidate[place] {
            return Some(place);
        }
        place = place + 1;
    }
    if reference.len() != candidate.len() {
        return Some(common);
    }
    assert(reference@ =~= candidate@);
    None
}

/// Compares two generations for a prompt.
pub fn diagnose_prompt(
    prompt: String,
    bf16_text: String,
    candidate_text: String,
    reference: &Vec<u32>,
    candidate: &Vec<u32>,
) -> (r: Fp8GreedyPromptDiagnostic)
    ensures
        r.prompt@ == prompt@,
        r.bf16_text@ == bf16_text@,
        r.candidate_text@ == candidate_text@,
        r.bf16_tokens == reference@.len(),
        r.candidate_tokens == candidate@.len(),
        match r.first_divergent_token {
            Some(place) => diverges_at(reference@, candidate@, place as int)
                && r.agreement_before_divergence == place,
            None => reference@ == candidate@ && r.agreement_before_divergence == reference@.len(),
        },
        r.exact_sequence_agreement == (reference@ == candidate@),
        r.output_length_agreement == (reference@.len() == candidate@.len()),
{
    let first_divergent_token = first_divergence(reference, candidate);
    let agreement_before_divergence: usize = match first_divergent_token {
        Some(place) => place,
        None => min_usize(reference.len(), candidate.len()),
    };
    Fp8GreedyPromptDiagnostic {
        prompt,
        bf16_text,
        candidate_text,
        bf16_tokens: reference.len(),
        candidate_tokens: candidate.len(),
        first_divergent_token,
        agreement_before_divergence,
        exact_sequence_agreement: first_divergent_token.is_none(),
        output_length_agreement: reference.len() == candidate.len(),
    }
}

/// Sequences diverge at one place at most, and only if they differ.
pub proof fn divergence_is_unique(a: Seq<u32>, b: Seq<u32>, x: int, y: int)
    requires
        diverges_at(a, b, x),
        diverges_at(a, b, y),
    ensures
        x == y,
        a != b,
{
    if x < y {
        assert(a[x] == b[x]);
    } else if y < x {
        assert(a[y] == b[y]);
    }
}

/// The prompts that generated texts are compared on.
pub open spec fn greedy_prompt(index: int) -> Seq<char> {
    if index == 0 {
        "Who are you?"@
    } else if index == 1 {
        "Explain why the sky appears blue."@
    } else if index == 2 {
        "Write a short Rust function that adds two integers."@
    } else if index == 3 {
        "What is the capital of France?"@
    } else if index == 4 {
        "Summarize the purpose of a GPU in one paragraph."@
    } else if index == 5 {
        "List three benefits of regular exercise."@
    } else if index == 6 {
        "Continue this sequence: 1, 1, 2, 3, 5,"@
    } else {
        "Describe a quiet evening by the sea."@
    }
}

/// The number of prompts that generated texts are compared on.
pub const GREEDY_PROMPTS: usize = 8;

/// The prompt at an index.
pub fn diagnostic_prompt(index: usize) -> (r: &'static str)
    requires
        index < GREEDY_PROMPTS,
    ensures
        r@ == greedy_prompt(index as int),
{
    match index {
        0 => "Who are you?",
        1 => "Explain why the sky appears blue.",
        2 => "Write a short Rust function that adds two integers.",
        3 => "What is the capital of France?",
        4 => "Summarize the purpose of a GPU in one paragraph.",
        5 => "List three benefits of regular exercise.",
        6 => "Continue this sequence: 1, 1, 2, 3, 5,",
        _ => "Describe a quiet evening by the sea.",
    }
}

/// How many of the first `upto` prompts agree exactly, and how many in length.
pub open spec fn agreements(diagnostics: Seq<Fp8GreedyPromptDiagnostic>, upto: int) -> (int, int)
    decreases upto,
{
    if upto <= 0 {
        (0, 0)
    } else {
        let before = agreements(diagnostics, upto - 1);
        let last = diagnostics[upto - 1];
        (
            before.0 + if last.exact_sequence_agreement {
                1int
            } else {
                0int
            },
            before.1 + if last.output_length_agreement {
                1int
            } else {
                0int
            },
        )
    }
}

/// Counts the prompts that agree exactly, and those that agree in length.
pub fn count_agreements(diagnostics: &Vec<Fp8GreedyPromptDiagnostic>) -> (r: (usize, usize))
    ensures
        r.0 == agreements(diagnostics@, diagnostics@.len() as int).0,
        r.1 == agreements(diagnostics@, diagnostics@.len() as int).1,
{
    let mut exact: usize = 0;
    let mut lengths: usize = 0;
    let mut index: usize = 0;
    while index < diagnostics.len()
        invariant
            index <= diagnostics@.len(),
            exact <= index,
            lengths <= index,
            exact == agreements(diagnostics@, index as int).0,
            lengths == agreements(diagnostics@, index as int).1,
        decreases diagnostics@.len() - index,
    {
        if diagnostics[index].exact_sequence_agreement {
            exact = exact + 1;
        }
        if diagnostics[index].output_length_agreement {
            lengths = lengths + 1;
        }
        index = index + 1;
    }
    (exact, lengths)
}

} // verus!
