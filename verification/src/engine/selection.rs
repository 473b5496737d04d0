//! Which policies a study weighs against each other, and which one it uses.
use vstd::prelude::*;

use crate::engine::study::{
    accepted_names, agreements, candidate_policies, class_policy, count_agreements, diagnose_prompt,
    diagnostic_prompt, find_final_norm, frontier_policy, frontier_sizes, is_best, is_eligible,
    listed_policies, name_views, policy_views, select_policy,
    Fp8GreedyPromptDiagnostic, PolicySearch, QualityVerdict, StudyError,
};
use crate::float::F64;
use crate::model::quantization::{Fp8PrecisionPolicy, PolicyView, PrecisionClass};
use crate::text::{decimal_text, occurs};

verus! {

/// A policy is another one with some sites enabled: it differs in its name alone otherwise.
pub open spec fn differs_in_sites(
    policy: Fp8PrecisionPolicy,
    base: Fp8PrecisionPolicy,
    name: Seq<char>,
) -> bool {
    &&& policy.name@ == name
    &&& policy.decode_only == base.decode_only
    &&& policy.sites@.len() == base.sites@.len()
    &&& forall|i: int|
        0 <= i < base.sites@.len() ==> (#[trigger] policy.sites@[i]).site@ == base.sites@[i].site@
            && policy.sites@[i].activation_scale == base.sites@[i].activation_scale
            && policy.sites@[i].weight_scale == base.sites@[i].weight_scale
}

proof fn lemma_class_policy(
    policy: Fp8PrecisionPolicy,
    base: Fp8PrecisionPolicy,
    name: Seq<char>,
    class: PrecisionClass,
)
    requires
        policy@ == class_policy(base@, name, class),
    ensures
        differs_in_sites(policy, base, name),
        forall|i: int|
            0 <= i < base.sites@.len() ==> ((#[trigger] policy.sites@[i]).enabled <==> base.sites@[i].enabled
                && class.covers(base.sites@[i].site@)),
{
    assert(policy@.sites.len() == base@.sites.len());
    assert forall|i: int| 0 <= i < base.sites@.len() implies (#[trigger] policy.sites@[i]).site@
        == base.sites@[i].site@ && policy.sites@[i].activation_scale
        == base.sites@[i].activation_scale && policy.sites@[i].weight_scale
        == base.sites@[i].weight_scale && (policy.sites@[i].enabled <==> base.sites@[i].enabled
        && class.covers(base.sites@[i].site@)) by {
        assert(policy@.sites[i] == policy.sites@[i]@);
        assert(base@.sites[i] == base.sites@[i]@);
        assert(policy@.sites[i].scales == base@.sites[i].scales);
    }
}

proof fn lemma_classes_are_listed_first(
    base: PolicyView,
    selected: PolicyView,
    accepted: Seq<Seq<char>>,
    upto: int,
    k: int,
)
    requires
        0 <= k < 4,
        0 <= upto,
    ensures
        listed_policies(base, selected, accepted, upto).len() >= 4,
        listed_policies(base, selected, accepted, upto)[k] == listed_policies(
            base,
            selected,
            accepted,
            0,
        )[k],
    decreases upto,
{
    if upto > 0 {
        lemma_classes_are_listed_first(base, selected, accepted, upto - 1, k);
    }
}

/// A study weighs four policies for the groups of sites, each with one more group than the
/// last: feed-forward, head, convolutions, everything. Sites that the base policy left out
/// stay out, and all keep its scales.
pub proof fn groups_are_weighed_first(
    base: Fp8PrecisionPolicy,
    selected: Fp8PrecisionPolicy,
    accepted: Vec<String>,
    r: Vec<Fp8PrecisionPolicy>,
    i: int,
)
    requires
        call_ensures(candidate_policies, (&base, &selected, &accepted), r),
        0 <= i < base.sites@.len(),
    ensures
        r@.len() >= 5,
        differs_in_sites(r@[0], base, "policy_a_mlp"@),
        differs_in_sites(r@[1], base, "policy_b_mlp_lm_head"@),
        differs_in_sites(r@[2], base, "policy_c_mlp_lm_head_conv"@),
        differs_in_sites(r@[3], base, "policy_d_maximal_local_safe"@),
        ({
            let site = base.sites@[i].site@;
            let on = base.sites@[i].enabled;
            let mlp = occurs(site, ".mlp."@);
            let head = site == "lm_head"@;
            let conv = occurs(site, ".conv."@);
            &&& r@[0].sites@[i].enabled <==> on && mlp
            &&& r@[1].sites@[i].enabled <==> on && (mlp || head)
            &&& r@[2].sites@[i].enabled <==> on && (mlp || head || conv)
            &&& r@[3].sites@[i].enabled <==> on
        }),
{
    let views = policy_views(r@);
    let listed = listed_policies(base@, selected@, name_views(accepted@), 8);
    lemma_classes_are_listed_first(base@, selected@, name_views(accepted@), 8, 0);
    lemma_classes_are_listed_first(base@, selected@, name_views(accepted@), 8, 1);
    lemma_classes_are_listed_first(base@, selected@, name_views(accepted@), 8, 2);
    lemma_classes_are_listed_first(base@, selected@, name_views(accepted@), 8, 3);
    assert(views.len() == listed.len() + 1);
    assert(views[0] == r@[0]@ && views[1] == r@[1]@ && views[2] == r@[2]@ && views[3] == r@[3]@);
    lemma_class_policy(
        r@[0],
        base,
        "policy_a_mlp"@,
        PrecisionClass::Mlp,
    );
    lemma_class_policy(
        r@[1],
        base,
        "policy_b_mlp_lm_head"@,
        PrecisionClass::MlpLmHead,
    );
    lemma_class_policy(
        r@[2],
        base,
        "policy_c_mlp_lm_head_conv"@,
        PrecisionClass::MlpLmHeadConv,
    );
    lemma_class_policy(
        r@[3],
        base,
        "policy_d_maximal_local_safe"@,
        PrecisionClass::All,
    );
    crate::model::provenance::classes_add_one_group_each(base.sites@[i].site@);
}

/// A policy enables exactly the sites of the first `count` accepted names.
pub open spec fn enables_the_first(
    policy: Fp8PrecisionPolicy,
    accepted: Seq<String>,
    count: int,
) -> bool {
    forall|i: int|
        0 <= i < policy.sites@.len() ==> ((#[trigger] policy.sites@[i]).enabled <==> exists|k: int|
            0 <= k < count && (#[trigger] accepted[k])@ == policy.sites@[i].site@)
}

/// A study also weighs the first one, two, four, eight, twelve, sixteen, twenty-four and
/// thirty-two sites that its search accepted, as far as there are so many, and at last the
/// whole outcome of the search.
pub proof fn frontiers_grow_in_steps(
    base: Fp8PrecisionPolicy,
    selected: Fp8PrecisionPolicy,
    accepted: Vec<String>,
    r: Vec<Fp8PrecisionPolicy>,
    count: int,
)
    requires
        call_ensures(candidate_policies, (&base, &selected, &accepted), r),
        count == 1 || count == 2 || count == 4 || count == 8 || count == 12 || count == 16 || count
            == 24 || count == 32,
    ensures
        r@.last()@ == selected@,
        count <= accepted@.len() ==> exists|j: int|
            4 <= j < r@.len() - 1 && differs_in_sites(
                #[trigger] r@[j],
                selected,
                "policy_frontier_"@ + decimal_text(count as nat),
            ) && enables_the_first(r@[j], accepted@, count),
{
    let views = policy_views(r@);
    let names = name_views(accepted@);
    let listed = listed_policies(base@, selected@, names, 8);
    assert(views == listed.push(selected@));
    assert(views.last() == r@.last()@);
    if count <= accepted@.len() {
        let k: int = if count == 1 {
            0
        } else if count == 2 {
            1
        } else if count == 4 {
            2
        } else if count == 8 {
            3
        } else if count == 12 {
            4
        } else if count == 16 {
            5
        } else if count == 24 {
            6
        } else {
            7
        };
        assert(frontier_sizes()[k] == count);
        lemma_frontier_place(base@, selected@, names, 8, k);
        let policy = frontier_policy(selected@, names, count);
        let j = choose|j: int| 4 <= j < listed.len() && listed[j] == policy;
        assert(views[j] == r@[j]@);
        assert(r@[j]@.sites.len() == selected@.sites.len());
        assert forall|i: int| 0 <= i < selected.sites@.len() implies (#[trigger] r@[j].sites@[i]).site@
            == selected.sites@[i].site@ && r@[j].sites@[i].activation_scale
            == selected.sites@[i].activation_scale && r@[j].sites@[i].weight_scale
            == selected.sites@[i].weight_scale && (r@[j].sites@[i].enabled <==> exists|k: int|
            0 <= k < count && (#[trigger] accepted@[k])@ == r@[j].sites@[i].site@) by {
            assert(r@[j]@.sites[i] == r@[j].sites@[i]@);
            assert(selected@.sites[i] == selected.sites@[i]@);
            assert(r@[j]@.sites[i].scales == selected@.sites[i].scales);
            let first = names.take(count);
            let site = selected.sites@[i].site@;
            if first.contains(site) {
                let k = choose|k: int| 0 <= k < first.len() && first[k] == site;
                assert(accepted@[k]@ == site);
            }
            if exists|k: int| 0 <= k < count && (#[trigger] accepted@[k])@ == site {
                let k = choose|k: int| 0 <= k < count && (#[trigger] accepted@[k])@ == site;
                assert(first[k] == site);
            }
        }
        assert(enables_the_first(r@[j], accepted@, count));
        assert(differs_in_sites(r@[j], selected, "policy_frontier_"@ + decimal_text(count as nat)));
    }
}

proof fn lemma_frontier_place(
    base: PolicyView,
    selected: PolicyView,
    accepted: Seq<Seq<char>>,
    upto: int,
    k: int,
)
    requires
        0 <= k < upto <= 8,
        frontier_sizes()[k] <= accepted.len(),
    ensures
        exists|j: int|
            4 <= j < listed_policies(base, selected, accepted, upto).len() && listed_policies(
                base,
                selected,
                accepted,
                upto,
            )[j] == frontier_policy(selected, accepted, frontier_sizes()[k] as int),
    decreases upto,
{
    let all = listed_policies(base, selected, accepted, upto);
    let before = listed_policies(base, selected, accepted, upto - 1);
    let policy = frontier_policy(selected, accepted, frontier_sizes()[k] as int);
    lemma_classes_are_listed_first(base, selected, accepted, upto - 1, 0);
    if k == upto - 1 {
        assert(all[before.len() as int] == policy);
    } else {
        lemma_frontier_place(base, selected, accepted, upto - 1, k);
        let j = choose|j: int| 4 <= j < before.len() && before[j] == policy;
        assert(all[j] == policy);
    }
}

/// The policy that is used passed the quality gate under its name, and no other policy that
/// passed saves more. If some policy with a name of its own passed, one is used.
pub proof fn used_policies_passed_and_save_most(
    verdicts: Vec<QualityVerdict>,
    policies: Vec<Fp8PrecisionPolicy>,
    savings: Vec<F64>,
    r: Option<usize>,
    i: int,
    p: int,
)
    requires
        call_ensures(select_policy, (&verdicts, &policies, &savings), r),
        savings@.len() == policies@.len(),
        0 <= i < verdicts@.len(),
        verdicts@[i].passes_quality_gate,
        0 <= p < policies@.len(),
        policies@[p].name@ == verdicts@[i].policy_name@,
        forall|q: int|
            0 <= q < p ==> (#[trigger] policies@[q]).name@ != verdicts@[i].policy_name@,
    ensures
        r is Some,
        r->Some_0 < policies@.len(),
        exists|v: int|
            0 <= v < verdicts@.len() && (#[trigger] verdicts@[v]).passes_quality_gate
                && verdicts@[v].policy_name@ == policies@[r->Some_0 as int].name@,
        savings@[p].total_order() <= savings@[r->Some_0 as int].total_order(),
{
    let views = policy_views(policies@);
    assert(views[p] == policies@[p]@);
    assert(views[p].name == policies@[p].name@);
    assert forall|q: int| 0 <= q < p implies (#[trigger] views[q]).name
        != verdicts@[i].policy_name@ by {
        assert(views[q] == policies@[q]@);
        assert(policies@[q].name@ != verdicts@[i].policy_name@);
    }
    assert(is_eligible(verdicts@, views, i, p));
    let place = r->Some_0 as int;
    let v = choose|v: int| #[trigger]
        is_best(verdicts@, views, savings@, verdicts@.len() as int, v, place);
    assert(is_eligible(verdicts@, views, v, place));
    assert(views[place] == policies@[place]@);
    assert(verdicts@[v].passes_quality_gate);
}

/// Without a policy that passed nothing is used.
pub proof fn rejected_policies_are_not_used(
    verdicts: Vec<QualityVerdict>,
    policies: Vec<Fp8PrecisionPolicy>,
    savings: Vec<F64>,
    r: Option<usize>,
)
    requires
        call_ensures(select_policy, (&verdicts, &policies, &savings), r),
        savings@.len() == policies@.len(),
        forall|i: int| 0 <= i < verdicts@.len() ==> !(#[trigger] verdicts@[i]).passes_quality_gate,
    ensures
        r is None,
{
    if r is Some {
        let v = choose|v: int| #[trigger]
            is_best(
                verdicts@,
                policy_views(policies@),
                savings@,
                verdicts@.len() as int,
                v,
                r->Some_0 as int,
            );
        assert(!verdicts@[v].passes_quality_gate);
    }
}

/// The hidden rows of a study end at the first point of the final normalisation.
pub proof fn final_norms_are_found(points: Vec<String>, r: Result<usize, StudyError>, i: int)
    requires
        call_ensures(find_final_norm, (&points,), r),
        0 <= i < points@.len(),
        points@[i]@ == "final_rms_norm"@,
    ensures
        r is Ok,
        r->Ok_0 <= i,
        points@[r->Ok_0 as int]@ == "final_rms_norm"@,
{
}

proof fn lemma_accepted(search: PolicySearch, upto: int, name: Seq<char>)
    requires
        0 <= upto <= search.steps@.len(),
    ensures
        accepted_names(search.steps@, name_views(search.candidates@), upto).contains(name)
            <==> exists|s: int|
            0 <= s < upto && (#[trigger] search.steps@[s]).accepted && name_views(
                search.candidates@,
            )[search.steps@[s].candidate as int] == name,
    decreases upto,
{
    if upto > 0 {
        lemma_accepted(search, upto - 1, name);
        let views = name_views(search.candidates@);
        let before = accepted_names(search.steps@, views, upto - 1);
        let all = accepted_names(search.steps@, views, upto);
        let last = search.steps@[upto - 1];
        if last.accepted {
            assert(all.last() == views[last.candidate as int]);
            if before.contains(name) {
                let i = choose|i: int| 0 <= i < before.len() && before[i] == name;
                assert(all[i] == name);
            }
            if all.contains(name) {
                let i = choose|i: int| 0 <= i < all.len() && all[i] == name;
                if i < before.len() {
                    assert(before[i] == name);
                }
            }
        }
    }
}

/// The accepted sites of a search are those whose trial was accepted, and no others.
pub proof fn accepted_sites_were_accepted(search: PolicySearch, r: Vec<String>, name: Seq<char>)
    requires
        call_ensures(PolicySearch::accepted_sites, (&search,), r),
        search.well_formed(),
    ensures
        (exists|i: int| 0 <= i < r@.len() && (#[trigger] r@[i])@ == name) <==> exists|s: int|
            0 <= s < search.steps@.len() && (#[trigger] search.steps@[s]).accepted && name_views(
                search.candidates@,
            )[search.steps@[s].candidate as int] == name,
{
    lemma_accepted(search, search.steps@.len() as int, name);
    let views = name_views(r@);
    if exists|i: int| 0 <= i < r@.len() && (#[trigger] r@[i])@ == name {
        let i = choose|i: int| 0 <= i < r@.len() && (#[trigger] r@[i])@ == name;
        assert(views[i] == name);
    }
    if views.contains(name) {
        let i = choose|i: int| 0 <= i < views.len() && views[i] == name;
        assert(r@[i]@ == name);
    }
}

/// A diagnostic names what was compared, and says whether both answers agree: everywhere,
/// in length, and up to which token.
pub proof fn diagnostics_say_where_answers_part(
    prompt: String,
    bf16_text: String,
    candidate_text: String,
    reference: Vec<u32>,
    candidate: Vec<u32>,
    r: Fp8GreedyPromptDiagnostic,
)
    requires
        call_ensures(
            diagnose_prompt,
            (prompt, bf16_text, candidate_text, &reference, &candidate),
            r,
        ),
    ensures
        r.prompt@ == prompt@,
        r.bf16_text@ == bf16_text@,
        r.candidate_text@ == candidate_text@,
        r.bf16_tokens == reference@.len(),
        r.candidate_tokens == candidate@.len(),
        r.exact_sequence_agreement <==> r.first_divergent_token is None,
        r.exact_sequence_agreement ==> r.output_length_agreement,
        r.output_length_agreement <==> reference@.len() == candidate@.len(),
        r.agreement_before_divergence <= reference@.len(),
        r.agreement_before_divergence <= candidate@.len(),
        forall|i: int|
            0 <= i < r.agreement_before_divergence ==> reference@[i] == #[trigger] candidate@[i],
        r.first_divergent_token is Some ==> {
            let at = r.first_divergent_token->Some_0;
            &&& at == r.agreement_before_divergence
            &&& at == reference@.len() || at == candidate@.len() || reference@[at as int]
                != candidate@[at as int]
        },
        reference@ == candidate@ ==> r.exact_sequence_agreement && r.agreement_before_divergence
            == reference@.len(),
{
}

proof fn lemma_agreements(diagnostics: Seq<Fp8GreedyPromptDiagnostic>, upto: int)
    requires
        0 <= upto <= diagnostics.len(),
    ensures
        0 <= agreements(diagnostics, upto).0 <= upto,
        0 <= agreements(diagnostics, upto).1 <= upto,
        agreements(diagnostics, upto).0 == upto <==> forall|i: int|
            0 <= i < upto ==> (#[trigger] diagnostics[i]).exact_sequence_agreement,
        agreements(diagnostics, upto).1 == upto <==> forall|i: int|
            0 <= i < upto ==> (#[trigger] diagnostics[i]).output_length_agreement,
        agreements(diagnostics, upto).0 == 0 <==> forall|i: int|
            0 <= i < upto ==> !(#[trigger] diagnostics[i]).exact_sequence_agreement,
        agreements(diagnostics, upto).1 == 0 <==> forall|i: int|
            0 <= i < upto ==> !(#[trigger] diagnostics[i]).output_length_agreement,
    decreases upto,
{
    if upto > 0 {
        lemma_agreements(diagnostics, upto - 1);
    }
}

/// All prompts agree, or none, exactly if each of them does or does not; exact agreement and
/// agreement in length are counted apart.
pub proof fn agreements_are_counted(
    diagnostics: Vec<Fp8GreedyPromptDiagnostic>,
    r: (usize, usize),
)
    requires
        call_ensures(count_agreements, (&diagnostics,), r),
    ensures
        r.0 <= diagnostics@.len(),
        r.1 <= diagnostics@.len(),
        r.0 == diagnostics@.len() <==> forall|i: int|
            0 <= i < diagnostics@.len() ==> (#[trigger] diagnostics@[i]).exact_sequence_agreement,
        r.1 == diagnostics@.len() <==> forall|i: int|
            0 <= i < diagnostics@.len() ==> (#[trigger] diagnostics@[i]).output_length_agreement,
        r.0 == 0 <==> forall|i: int|
            0 <= i < diagnostics@.len() ==> !(#[trigger] diagnostics@[i]).exact_sequence_agreement,
        r.1 == 0 <==> forall|i: int|
            0 <= i < diagnostics@.len() ==> !(#[trigger] diagnostics@[i]).output_length_agreement,
{
    lemma_agreements(diagnostics@, diagnostics@.len() as int);
}

/// One more prompt adds one to each count that it agrees in.
pub proof fn agreements_add_up(
    some: Vec<Fp8GreedyPromptDiagnostic>,
    more: Vec<Fp8GreedyPromptDiagnostic>,
    r: (usize, usize),
    s: (usize, usize),
)
    requires
        call_ensures(count_agreements, (&some,), r),
        call_ensures(count_agreements, (&more,), s),
        more@.len() > 0,
        some@ == more@.drop_last(),
    ensures
        s.0 == r.0 + (if more@.last().exact_sequence_agreement {
            1int
        } else {
            0int
        }),
        s.1 == r.1 + (if more@.last().output_length_agreement {
            1int
        } else {
            0int
        }),
{
    lemma_agreements_of_prefix(some@, more@, some@.len() as int);
}

proof fn lemma_agreements_of_prefix(
    some: Seq<Fp8GreedyPromptDiagnostic>,
    more: Seq<Fp8GreedyPromptDiagnostic>,
    upto: int,
)
    requires
        more.len() > 0,
        some == more.drop_last(),
        0 <= upto <= some.len(),
    ensures
        agreements(some, upto) == agreements(more, upto),
    decreases upto,
{
    if upto > 0 {
        lemma_agreements_of_prefix(some, more, upto - 1);
    }
}

/// The prompts that answers are compared on.
pub proof fn prompts_are_fixed(index: usize, r: &'static str)
    requires
        call_ensures(diagnostic_prompt, (index,), r),
        index < 8,
    ensures
        index == 0 ==> r@ == "Who are you?"@,
        index == 1 ==> r@ == "Explain why the sky appears blue."@,
        index == 2 ==> r@ == "Write a short Rust function that adds two integers."@,
        index == 3 ==> r@ == "What is the capital of France?"@,
        index == 4 ==> r@ == "Summarize the purpose of a GPU in one paragraph."@,
        index == 5 ==> r@ == "List three benefits of regular exercise."@,
        index == 6 ==> r@ == "Continue this sequence: 1, 1, 2, 3, 5,"@,
        index == 7 ==> r@ == "Describe a quiet evening by the sea."@,
{
}

} // verus!
