//! The precision study.
use lfm25_inference::engine::study::{
    candidate_policies, check_calibration, check_enabled, check_sequences, check_validation,
    count_agreements, count_enabled, count_sampled_sequence, diagnose_prompt, diagnostic_prompt,
    find_final_norm, first_divergence, passes_quality_gate, plan_evaluation, plan_sampled_decodes,
    select_policy, single_site_policy, study_verdict, subset_length, PointQuality, PolicySearch,
    QualityVerdict, SampledDecode, SearchMeasurement, StudyError, GREEDY_PROMPTS,
};
use lfm25_inference::float::{F32, F64};
use lfm25_inference::model::quantization::{
    Fp8PrecisionPolicy, Fp8SitePolicy, ScalarScale, ScaleStrategy,
};

fn double(value: f64) -> F64 {
    F64 { bits: value.to_bits() }
}

fn policy(sites: &[(&str, bool)]) -> Fp8PrecisionPolicy {
    let one = F32 { bits: 1.0f32.to_bits() };
    let scale = ScalarScale {
        clip_amax: one,
        quantize_multiplier: one,
        dequantize_multiplier: one,
    };
    Fp8PrecisionPolicy {
        schema_version: 1,
        name: "base".to_string(),
        source: "test".to_string(),
        decode_only: true,
        sites: sites
            .iter()
            .map(|(site, enabled)| Fp8SitePolicy {
                site: site.to_string(),
                enabled: *enabled,
                activation_strategy: ScaleStrategy::Amax,
                weight_strategy: ScaleStrategy::P99_9,
                activation_scale: scale,
                weight_scale: scale,
                local_nrmse: double(0.01),
                local_cosine: double(0.999),
                expected_decode_saving_us: double(4.0),
            })
            .collect(),
    }
}

fn enabled(policy: &Fp8PrecisionPolicy) -> Vec<bool> {
    policy.sites.iter().map(|site| site.enabled).collect()
}

#[test]
fn runs_are_checked_in_order() {
    assert_eq!(check_calibration(0, 0, 0, 0, 0), Err(StudyError::NoSequences));
    assert_eq!(check_calibration(1, 0, 0, 0, 0), Err(StudyError::NoSequenceTokens));
    assert_eq!(
        check_calibration(1, 129, 0, 0, 128),
        Err(StudyError::SequenceExceedsModel { tokens: 129, limit: 128 })
    );
    assert_eq!(check_calibration(1, 128, 0, 0, 128), Err(StudyError::NoEvaluationSequences));
    assert_eq!(
        check_calibration(1, 128, 1, 63, 128),
        Err(StudyError::EvaluationTokens { limit: 128 })
    );
    assert_eq!(check_calibration(1, 128, 1, 64, 128), Ok(()));
    assert_eq!(check_validation(1, 129, 128), Err(StudyError::EvaluationTokens { limit: 128 }));
    assert_eq!(check_sequences(4, 4), Ok(()));
    assert_eq!(
        check_sequences(3, 4),
        Err(StudyError::MissingSequences { found: 3, wanted: 4 })
    );
    assert_eq!(check_enabled(0), Err(StudyError::NoEnabledSites));
    assert_eq!(check_enabled(2), Ok(2));
}

#[test]
fn sampled_decodes_run_every_token_once() {
    let steps = plan_sampled_decodes(96, 8);
    assert_eq!(steps[0], SampledDecode { skip_from: 0, position: 1 });
    assert_eq!(steps[1], SampledDecode { skip_from: 2, position: 14 });
    assert_eq!(steps[7], SampledDecode { skip_from: 82, position: 95 });
    let mut next = 0;
    for step in &steps {
        assert_eq!(step.skip_from, next);
        assert!(step.position >= next);
        next = step.position + 1;
    }
    assert!(plan_sampled_decodes(1, 8).is_empty());
}

#[test]
fn evaluations_capture_spread_positions() {
    let plan = plan_evaluation(97, 100).unwrap();
    assert_eq!((plan.source_tokens, plan.inputs), (197, 96));
    assert_eq!(plan.captured, vec![1, 14, 27, 41, 54, 68, 81, 95]);
    assert!(plan.captures(14) && !plan.captures(15));
    assert_eq!(plan_evaluation(1, 0).unwrap_err(), StudyError::SequenceTooShort);
    assert_eq!(plan_evaluation(2, usize::MAX).unwrap_err(), StudyError::TokenCountOverflow);
    assert_eq!(count_sampled_sequence(2, 0), Err(StudyError::SequenceTooShort));
    assert_eq!(count_sampled_sequence(3, 4), Ok(7));
    assert_eq!(count_sampled_sequence(3, usize::MAX), Err(StudyError::TokenCountOverflow));
    assert_eq!((subset_length(9, 4), subset_length(3, 4)), (4, 3));
}

#[test]
fn quality_gates_look_at_loss_and_drift() {
    let point = |non_finite_values, nrmse: f64, cosine: f64| PointQuality {
        non_finite_values,
        nrmse: double(nrmse),
        cosine: double(cosine),
    };
    let good = vec![point(0, 0.10, 0.99), point(0, 0.0, 1.0)];
    assert!(passes_quality_gate(0, double(0.01), &good));
    assert!(passes_quality_gate(0, double(-3.0), &vec![]));
    assert!(!passes_quality_gate(1, double(0.0), &good));
    assert!(!passes_quality_gate(0, double(0.0100001), &good));
    assert!(!passes_quality_gate(0, double(f64::NAN), &good));
    assert!(!passes_quality_gate(0, double(0.0), &vec![point(1, 0.0, 1.0)]));
    assert!(!passes_quality_gate(0, double(0.0), &vec![point(0, 0.1001, 1.0)]));
    assert!(!passes_quality_gate(0, double(0.0), &vec![point(0, 0.0, 0.9899)]));
}

#[test]
fn single_sites_are_studied_alone() {
    let base = policy(&[("a", true), ("b", false), ("c", true)]);
    let single = single_site_policy(&base, 1);
    assert_eq!(single.name, "single_site_b");
    assert_eq!(enabled(&single), vec![false, true, false]);
    assert_eq!(single.sites[2].site, "c");
    assert_eq!(count_enabled(&base), 2);
}

#[test]
fn the_final_norm_is_found_by_name() {
    let names = |list: &[&str]| list.iter().map(|name| name.to_string()).collect::<Vec<_>>();
    assert_eq!(find_final_norm(&names(&["final_rms_norm", "x"])), Ok(0));
    assert_eq!(find_final_norm(&names(&["a", "final_rms_norm"])), Ok(1));
    assert_eq!(find_final_norm(&names(&["final"])), Err(StudyError::MissingFinalNorm));
}

fn measured(kl: f64) -> SearchMeasurement {
    SearchMeasurement {
        non_finite_logits: 0,
        relative_nll_delta: double(0.005),
        mean_logit_kl: double(kl),
        final_hidden_nrmse: double(0.12),
        final_hidden_cosine: double(0.985),
    }
}

#[test]
fn searches_keep_the_sites_that_hold_the_quality() {
    let base = policy(&[("a", true), ("b", true), ("c", true)]);
    let names = vec!["a".to_string(), "b".to_string(), "c".to_string()];
    let mut search =
        PolicySearch::begin(&base, names, &vec![double(1.0), double(5.0), double(5.0)]);
    assert_eq!(search.selected.name, "policy_auto_selective");
    assert_eq!(enabled(&search.selected), vec![false, false, false]);
    assert_eq!(search.try_next(), Ok(Some(1)));
    assert_eq!(enabled(&search.selected), vec![false, true, false]);
    let step = search.conclude(measured(0.05));
    assert!(step.accepted);
    assert_eq!(step.enabled_sites_after_step, 1);
    assert_eq!(search.try_next(), Ok(Some(2)));
    assert!(!search.conclude(measured(0.051)).accepted);
    assert_eq!(enabled(&search.selected), vec![false, true, false]);
    assert_eq!(search.try_next(), Ok(Some(0)));
    assert!(search.conclude(measured(0.0)).accepted);
    assert_eq!(search.try_next(), Ok(None));
    assert_eq!(search.accepted_sites(), vec!["b".to_string(), "a".to_string()]);
    assert_eq!(enabled(&search.finish().unwrap()), vec![true, true, false]);
}

#[test]
fn searches_can_fail() {
    let base = policy(&[("a", true)]);
    let mut missing =
        PolicySearch::begin(&base, vec!["z".to_string()], &vec![double(1.0)]);
    assert_eq!(missing.try_next(), Err(StudyError::MissingSite));
    let mut rejected =
        PolicySearch::begin(&base, vec!["a".to_string()], &vec![double(1.0)]);
    assert_eq!(rejected.try_next(), Ok(Some(0)));
    rejected.conclude(SearchMeasurement { non_finite_logits: 1, ..measured(0.0) });
    assert_eq!(rejected.finish().unwrap_err(), StudyError::EverySiteRejected);
}

#[test]
fn the_fast_gate_has_five_limits() {
    assert!(measured(0.05).is_accepted());
    let good = measured(0.0);
    assert!(!SearchMeasurement { relative_nll_delta: double(0.00501), ..good }.is_accepted());
    assert!(!SearchMeasurement { final_hidden_nrmse: double(0.121), ..good }.is_accepted());
    assert!(!SearchMeasurement { final_hidden_cosine: double(0.9849), ..good }.is_accepted());
    assert!(!SearchMeasurement { mean_logit_kl: double(f64::NAN), ..good }.is_accepted());
}

#[test]
fn classes_and_frontiers_are_listed() {
    let base = policy(&[
        ("layers.0.mlp.gate_up", true),
        ("lm_head", true),
        ("layers.0.conv.in_proj", true),
        ("layers.1.attention.query", true),
    ]);
    let accepted = vec!["lm_head".to_string(), "layers.0.mlp.gate_up".to_string()];
    let policies = candidate_policies(&base, &base, &accepted);
    let names: Vec<&str> = policies.iter().map(|policy| policy.name.as_str()).collect();
    assert_eq!(
        names,
        vec![
            "policy_a_mlp",
            "policy_b_mlp_lm_head",
            "policy_c_mlp_lm_head_conv",
            "policy_d_maximal_local_safe",
            "policy_frontier_1",
            "policy_frontier_2",
            "base",
        ]
    );
    assert_eq!(enabled(&policies[0]), vec![true, false, false, false]);
    assert_eq!(enabled(&policies[1]), vec![true, true, false, false]);
    assert_eq!(enabled(&policies[2]), vec![true, true, true, false]);
    assert_eq!(enabled(&policies[3]), vec![true, true, true, true]);
    assert_eq!(enabled(&policies[4]), vec![false, true, false, false]);
    assert_eq!(enabled(&policies[5]), vec![true, true, false, false]);
}

#[test]
fn the_policy_that_saves_most_is_selected() {
    let mut policies = vec![policy(&[]), policy(&[]), policy(&[])];
    for (index, policy) in policies.iter_mut().enumerate() {
        policy.name = format!("p{index}");
    }
    let verdict = |name: &str, passes| QualityVerdict {
        policy_name: name.to_string(),
        passes_quality_gate: passes,
    };
    let savings = vec![double(3.0), double(9.0), double(3.0)];
    let all = vec![verdict("p0", true), verdict("p1", false), verdict("p2", true)];
    assert_eq!(select_policy(&all, &policies, &savings), Some(2));
    let best = vec![verdict("p1", true), verdict("p0", true), verdict("none", true)];
    assert_eq!(select_policy(&best, &policies, &savings), Some(1));
    let none = vec![verdict("p0", false), verdict("none", true)];
    assert_eq!(select_policy(&none, &policies, &savings), None);
    assert_eq!(study_verdict(Some(1)), "quality_gate_pass");
    assert_eq!(study_verdict(None), "quality_gate_reject_all");
}

#[test]
fn divergences_are_found() {
    assert_eq!(first_divergence(&vec![1, 2, 3], &vec![1, 9, 3]), Some(1));
    assert_eq!(first_divergence(&vec![1, 2], &vec![1, 2, 3]), Some(2));
    assert_eq!(first_divergence(&vec![1, 2], &vec![1, 2]), None);
    let diagnose = |left: Vec<u32>, right: Vec<u32>| {
        diagnose_prompt("p".to_string(), "l".to_string(), "r".to_string(), &left, &right)
    };
    let same = diagnose(vec![4, 5], vec![4, 5]);
    assert!(same.exact_sequence_agreement && same.output_length_agreement);
    assert_eq!((same.first_divergent_token, same.agreement_before_divergence), (None, 2));
    let other = diagnose(vec![4, 5], vec![4, 6]);
    assert!(!other.exact_sequence_agreement && other.output_length_agreement);
    assert_eq!((other.first_divergent_token, other.agreement_before_divergence), (Some(1), 1));
    let longer = diagnose(vec![4, 5], vec![4, 5, 6]);
    assert_eq!((longer.bf16_tokens, longer.candidate_tokens), (2, 3));
    assert_eq!(longer.bf16_text, "l");
    assert_eq!(longer.candidate_text, "r");
    assert_eq!(count_agreements(&vec![same, other, longer]), (1, 2));
}

#[test]
fn texts_are_compared_on_eight_prompts() {
    let prompts: Vec<&str> = (0..GREEDY_PROMPTS).map(diagnostic_prompt).collect();
    assert_eq!(prompts[0], "Who are you?");
    assert_eq!(prompts[7], "Describe a quiet evening by the sea.");
    let mut unique = prompts.clone();
    unique.sort();
    unique.dedup();
    assert_eq!(unique.len(), 8);
}
