//! How tokens are chosen, in bits and positions.
use vstd::prelude::*;

use crate::bf16::Bf16;
use crate::float::{F32, F64};
use crate::generation::sampler::{
    check_probability_total, drawn_candidate, last_maximum, raw_candidates, top_candidates,
    PenaltyStep, RawCandidate, Sampler, SamplingConfig, SamplingError, SamplingRoute,
};

verus! {

/// The value is a finite number of at least zero, zero of either sign among them.
pub open spec fn is_nonnegative(value: F32) -> bool {
    value.bits < 0x7f80_0000 || value.bits == 0x8000_0000
}

/// The value is a finite number of at least one.
pub open spec fn is_at_least_one(value: F32) -> bool {
    0x3f80_0000 <= value.bits < 0x7f80_0000
}

/// A configuration is handed back unchanged exactly if its temperature is finite and not
/// negative, it keeps a candidate, and its penalty is finite and at least one. The first of
/// these that fails is named.
pub proof fn usable_configurations_pass(config: SamplingConfig, r: Result<SamplingConfig, SamplingError>)
    requires
        call_ensures(SamplingConfig::validate, (config,), r),
    ensures
        r == (if !is_nonnegative(config.temperature) {
            Err::<SamplingConfig, SamplingError>(SamplingError::Temperature)
        } else if config.top_k == 0 {
            Err::<SamplingConfig, SamplingError>(SamplingError::TopK)
        } else if !is_at_least_one(config.repetition_penalty) {
            Err::<SamplingConfig, SamplingError>(SamplingError::RepetitionPenalty)
        } else {
            Ok::<SamplingConfig, SamplingError>(config)
        }),
{
}

/// A sampler is made of every usable configuration and of no other, and draws from its seed;
/// from zero, which the generator would never leave, it does not draw.
pub proof fn samplers_start_from_their_seed(config: SamplingConfig, r: Result<Sampler, SamplingError>)
    requires
        call_ensures(Sampler::new, (config,), r),
    ensures
        r is Ok <==> is_nonnegative(config.temperature) && config.top_k > 0 && is_at_least_one(
            config.repetition_penalty,
        ),
        r is Ok ==> {
            &&& r->Ok_0.configuration() == config
            &&& config.seed != 0 ==> r->Ok_0.state() == config.seed
            &&& config.seed == 0 ==> r->Ok_0.state() == 0x9e37_79b9_7f4a_7c15
        },
        r is Err ==> (r->Err_0 == SamplingError::Temperature <==> !is_nonnegative(
            config.temperature,
        )),
        r is Err && is_nonnegative(config.temperature) ==> (r->Err_0 == SamplingError::TopK
            <==> config.top_k == 0),
{
}

/// With a temperature tokens are drawn on the host. Without one the largest score is taken:
/// on the device if the penalty changes nothing, and on the host otherwise.
pub proof fn routes_follow_temperature_and_penalty(
    sampler: &Sampler,
    dims: &[usize],
    r: Result<SamplingRoute, SamplingError>,
)
    requires
        call_ensures(Sampler::route, (sampler, dims), r),
    ensures
        r is Err <==> dims@.len() != 2 || dims@[0] != 1,
        r is Err ==> r->Err_0 == SamplingError::LogitsShape,
        r is Ok ==> {
            let temperature = sampler.configuration().temperature.bits;
            let penalty = sampler.configuration().repetition_penalty.bits;
            let greedy = temperature == 0 || temperature == 0x8000_0000;
            &&& r->Ok_0 == SamplingRoute::HostDraw <==> !greedy
            &&& r->Ok_0 == SamplingRoute::DeviceArgmax <==> greedy && penalty == 0x3f80_0000
            &&& r->Ok_0 == SamplingRoute::HostArgmax <==> greedy && penalty != 0x3f80_0000
        },
{
}

/// A draw mixes the state by three shifts and hands out the upper 53 bits of the new state. It
/// changes nothing else of the sampler.
pub proof fn draws_mix_by_three_shifts(sampler: &mut Sampler, r: u64, a: u64, b: u64)
    requires
        call_ensures(Sampler::next_unit_numerator, (sampler,), r),
        a == old(sampler).state() ^ (old(sampler).state() << 13),
        b == a ^ (a >> 7),
    ensures
        final(sampler).state() == b ^ (b << 17),
        r == (b ^ (b << 17)) / 2048,
        final(sampler).configuration() == old(sampler).configuration(),
{
    let next = final(sampler).state();
    assert(next >> 11 == next / 2048) by (bit_vector);
}

/// Every vocabulary entry is a candidate under its own number and with its own logit. Entries
/// that were said before are penalised, and only they: what is not negative is divided, what
/// is negative or not a number is multiplied.
pub proof fn candidates_are_penalised_for_repetition(
    logits: &[Bf16],
    history: &[u32],
    r: Vec<RawCandidate>,
    index: int,
)
    requires
        call_ensures(raw_candidates, (logits, history), r),
        0 <= index < logits@.len() <= 0x1_0000_0000,
    ensures
        r@.len() == logits@.len(),
        r@[index].token == index,
        !logits@[index].nan() ==> r@[index].score.bits == logits@[index].bits * 65536,
        logits@[index].nan() ==> r@[index].score.nan(),
        r@[index].penalty == PenaltyStep::Keep <==> forall|h: int|
            0 <= h < history@.len() ==> #[trigger] history@[h] != index,
        r@[index].penalty == PenaltyStep::Divide ==> logits@[index].bits <= 0x7f80
            || logits@[index].bits == 0x8000,
        r@[index].penalty == PenaltyStep::Multiply ==> logits@[index].bits > 0x7f80
            && logits@[index].bits != 0x8000,
{
    let candidate = r@[index];
    assert(candidate == crate::generation::sampler::raw_candidate(logits@, history@, index));
    assert((index as u32) as int == index);
    if history@.contains(index as u32) {
        let h = choose|h: int| 0 <= h < history@.len() && history@[h] == index as u32;
        assert(history@[h] == index);
    } else {
        assert forall|h: int| 0 <= h < history@.len() implies #[trigger] history@[h] != index by {
            if history@[h] == index {
                assert(history@.contains(history@[h]));
            }
        }
    }
}

/// One of two scores that are numbers is the larger; zero of either sign is one number.
pub open spec fn is_below(a: F32, b: F32) -> bool {
    if a.bits < 0x8000_0000 {
        a.bits < b.bits < 0x8000_0000
    } else {
        b.bits < 0x8000_0000 && !(a.bits == 0x8000_0000 && b.bits == 0) || b.bits >= 0x8000_0000
            && b.bits < a.bits
    }
}

/// The token taken has a score that no other exceeds, and every later one has a smaller
/// score or the other zero.
pub proof fn the_largest_score_is_taken(scores: &[F32], r: Result<usize, SamplingError>, other: int)
    requires
        call_ensures(last_maximum, (scores,), r),
        0 <= other < scores@.len(),
    ensures
        r is Ok,
        r->Ok_0 < scores@.len(),
        !is_below(scores@[r->Ok_0 as int], scores@[other]),
        other > r->Ok_0 ==> scores@[other] != scores@[r->Ok_0 as int],
{
}

/// Only an empty row has no largest score.
pub proof fn only_empty_rows_have_no_largest(scores: &[F32], r: Result<usize, SamplingError>)
    requires
        call_ensures(last_maximum, (scores,), r),
    ensures
        r is Err <==> scores@.len() == 0,
        r is Err ==> r->Err_0 == SamplingError::EmptyLogits,
{
}

/// As many positions are kept as asked for, each once, and none that is left out has a
/// larger score than one that is kept.
pub proof fn the_best_scores_are_kept(
    scores: &[F32],
    keep: usize,
    r: Vec<usize>,
    kept: int,
    other: usize,
)
    requires
        call_ensures(top_candidates, (scores, keep), r),
        keep <= scores@.len(),
        scores@.len() > 0 ==> keep > 0,
        0 <= kept < r@.len(),
        other < scores@.len(),
        !r@.contains(other),
    ensures
        r@.len() == keep,
        r@[kept] < scores@.len(),
        r@.no_duplicates(),
        !is_below(scores@[r@[kept] as int], scores@[other as int]),
{
    assert(scores@[other as int].total_order() <= scores@[r@[kept] as int].total_order());
}

/// A draw considers as many candidates as it may keep, and no more than there are.
pub proof fn draws_consider_what_there_is(sampler: &Sampler, available: usize, r: usize)
    requires
        call_ensures(Sampler::kept_candidates, (sampler, available), r),
    ensures
        r <= available,
        r <= sampler.configuration().top_k,
        r == available || r == sampler.configuration().top_k,
{
}

/// Probabilities can be drawn from if their sum is a finite number above zero.
pub proof fn positive_totals_are_drawn_from(total: F64, r: Result<(), SamplingError>)
    requires
        call_ensures(check_probability_total, (total,), r),
    ensures
        r is Ok <==> 0 < total.bits < 0x7ff0_0000_0000_0000,
        r is Err ==> r->Err_0 == SamplingError::Probabilities,
{
}

/// The draw falls on the first candidate whose probability covers what is left of the
/// threshold; past all of them it falls on the last. Probabilities and thresholds are not
/// negative, so their bits order them.
pub proof fn draws_fall_on_the_first_cover(
    thresholds: &[F64],
    probabilities: &[F64],
    r: usize,
    earlier: int,
)
    requires
        call_ensures(drawn_candidate, (thresholds, probabilities), r),
        thresholds@.len() == probabilities@.len(),
        probabilities@.len() > 0,
        forall|i: int|
            0 <= i < probabilities@.len() ==> (#[trigger] probabilities@[i]).bits
                <= 0x7ff0_0000_0000_0000,
        forall|i: int|
            0 <= i < thresholds@.len() ==> (#[trigger] thresholds@[i]).bits
                <= 0x7ff0_0000_0000_0000,
        0 <= earlier < r,
    ensures
        r < probabilities@.len(),
        probabilities@[earlier].bits < thresholds@[earlier].bits,
        r < probabilities@.len() - 1 ==> probabilities@[r as int].bits >= thresholds@[r as int].bits,
{
    assert(!probabilities@[earlier].is_at_least(thresholds@[earlier]));
    assert(probabilities@[r as int].bits <= 0x7ff0_0000_0000_0000);
    assert(thresholds@[r as int].bits <= 0x7ff0_0000_0000_0000);
}

/// The first candidate is drawn exactly if it covers the whole threshold or stands alone.
pub proof fn first_cover_is_drawn(thresholds: &[F64], probabilities: &[F64], r: usize)
    requires
        call_ensures(drawn_candidate, (thresholds, probabilities), r),
        thresholds@.len() == probabilities@.len(),
        probabilities@.len() > 0,
        probabilities@[0].bits <= 0x7ff0_0000_0000_0000,
        thresholds@[0].bits <= 0x7ff0_0000_0000_0000,
    ensures
        r == 0 <==> probabilities@[0].bits >= thresholds@[0].bits || probabilities@.len() == 1,
{
    if r > 0 {
        assert(!probabilities@[0].is_at_least(thresholds@[0]));
    }
}

} // verus!
