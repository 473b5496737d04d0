//! Choosing the next token from logits.
//!
//! The library decides which way a token is chosen, which candidates are penalised and
//! kept, and which one is picked. The arithmetic on scores and probabilities between
//! these decisions is the application's.
use vstd::prelude::*;

use crate::bf16::{widen, Bf16};
use crate::float::{F32, F64};
use crate::num::min_usize;

verus! {

/// How tokens are sampled.
#[derive(Clone, Copy, Debug, PartialEq, Eq, Structural)]
pub struct SamplingConfig {
    pub temperature: F32,
    pub top_k: usize,
    pub repetition_penalty: F32,
    pub seed: u64,
}

impl Default for SamplingConfig {
    fn default() -> (r: Self)
        ensures
            r == SamplingConfig::greedy_config(),
    {
        SamplingConfig {
            temperature: F32 { bits: 0 },
            top_k: 50,
            repetition_penalty: F32 { bits: 0x3f80_0000 },
            seed: 0x4c46_4d32,
        }
    }
}

#[derive(Clone, Copy, Debug, PartialEq, Eq, Structural)]
pub enum SamplingError {
    /// The temperature is negative, infinite or not a number.
    Temperature,
    /// No candidate may be kept.
    TopK,
    /// The repetition penalty is below one, infinite or not a number.
    RepetitionPenalty,
    /// The logits are not one row of a vocabulary.
    LogitsShape,
    EmptyLogits,
    /// The probabilities do not add up to a positive number.
    Probabilities,
}

impl SamplingError {
    /// What the user is told.
    pub open spec fn text(self) -> Seq<char> {
        match self {
            SamplingError::Temperature => "temperature must be finite and non-negative"@,
            SamplingError::TopK => "top_k must be positive"@,
            SamplingError::RepetitionPenalty => "repetition_penalty must be finite and >= 1"@,
            SamplingError::LogitsShape => "sampler expects logits [1,vocab]"@,
            SamplingError::EmptyLogits => "sampler received empty logits"@,
            SamplingError::Probabilities => "sampling probabilities are invalid"@,
        }
    }

    pub fn message(self) -> (r: String)
        ensures
            r@ == self.text(),
    {
        match self {
            SamplingError::Temperature => "temperature must be finite and non-negative".to_owned(),
            SamplingError::TopK => "top_k must be positive".to_owned(),
            SamplingError::RepetitionPenalty => {
                "repetition_penalty must be finite and >= 1".to_owned()
            },
            SamplingError::LogitsShape => "sampler expects logits [1,vocab]".to_owned(),
            SamplingError::EmptyLogits => "sampler received empty logits".to_owned(),
            SamplingError::Probabilities => "sampling probabilities are invalid".to_owned(),
        }
    }
}

impl SamplingConfig {
    /// Temperature zero, no penalty.
    pub open spec fn greedy_config() -> SamplingConfig {
        SamplingConfig {
            temperature: F32 { bits: 0 },
            top_k: 50,
            repetition_penalty: F32 { bits: 0x3f80_0000 },
            seed: 0x4c46_4d32,
        }
    }

    /// What is wrong with the configuration, if anything.
    pub open spec fn defect(self) -> Option<SamplingError> {
        if !(self.temperature.finite() && self.temperature.is_at_least(F32 { bits: 0 })) {
            Some(SamplingError::Temperature)
        } else if self.top_k == 0 {
            Some(SamplingError::TopK)
        } else if !(self.repetition_penalty.finite() && self.repetition_penalty.is_at_least(
            F32 { bits: 0x3f80_0000 },
        )) {
            Some(SamplingError::RepetitionPenalty)
        } else {
            None
        }
    }

    /// Hands back a usable configuration, or says what is wrong with it.
    pub fn validate(self) -> (r: Result<Self, SamplingError>)
        ensures
            r == (match self.defect() {
                Some(e) => Err::<SamplingConfig, SamplingError>(e),
                None => Ok::<SamplingConfig, SamplingError>(self),
            }),
    {
        if !(self.temperature.is_finite() && self.temperature.at_least(F32 { bits: 0 })) {
            return Err(SamplingError::Temperature);
        }
        if self.top_k == 0 {
            return Err(SamplingError::TopK);
        }
        if !(self.repetition_penalty.is_finite() && self.repetition_penalty.at_least(
            F32 { bits: 0x3f80_0000 },
        )) {
            return Err(SamplingError::RepetitionPenalty);
        }
        Ok(self)
    }
}

/// The way one token is chosen.
#[derive(Clone, Copy, Debug, PartialEq, Eq, Structural)]
pub enum SamplingRoute {
    /// The device picks the largest logit.
    DeviceArgmax,
    /// The host picks the largest penalised score.
    HostArgmax,
    /// The host draws among the best penalised scores.
    HostDraw,
}

/// What the repetition penalty does to a score.
#[derive(Clone, Copy, Debug, PartialEq, Eq, Structural)]
pub enum PenaltyStep {
    Keep,
    Divide,
    Multiply,
}

/// A vocabulary entry before its penalty is computed.
#[derive(Clone, Copy, Debug, PartialEq, Eq, Structural)]
pub struct RawCandidate {
    pub token: u32,
    pub score: F32,
    pub penalty: PenaltyStep,
}

/// The penalty step of a score: a repeated token loses whatever its sign is.
pub open spec fn penalty_step(score: F32, repeated: bool) -> PenaltyStep {
    if !repeated {
        PenaltyStep::Keep
    } else if score.is_at_least(F32 { bits: 0 }) {
        PenaltyStep::Divide
    } else {
        PenaltyStep::Multiply
    }
}

pub open spec fn raw_candidate(logits: Seq<Bf16>, history: Seq<u32>, index: int) -> RawCandidate {
    RawCandidate {
        token: index as u32,
        score: logits[index].widened(),
        penalty: penalty_step(logits[index].widened(), history.contains(index as u32)),
    }
}

/// The last of the positions whose score is largest in the total order.
pub open spec fn is_last_maximum(scores: Seq<F32>, index: int) -> bool {
    &&& 0 <= index < scores.len()
    &&& forall|j: int|
        0 <= j < scores.len() ==> (#[trigger] scores[j]).total_order() < scores[index].total_order()
            || scores[j].total_order() == scores[index].total_order() && j <= index
}

/// The generator step: shifts by 13, 7 and 17.
pub open spec fn xorshift(state: u64) -> u64 {
    let a = state ^ (state << 13);
    let b = a ^ (a >> 7);
    b ^ (b << 17)
}

/// Draws tokens with one configuration and one stream of random numbers.
#[derive(Debug)]
pub struct Sampler {
    config: SamplingConfig,
    random_state: u64,
}

impl Sampler {
    pub closed spec fn configuration(self) -> SamplingConfig {
        self.config
    }

    pub closed spec fn state(self) -> u64 {
        self.random_state
    }

    /// The configuration is usable, and the generator is not stuck at zero.
    pub open spec fn well_formed(self) -> bool {
        self.configuration().defect() is None && self.state() != 0
    }

    /// A sampler that has drawn nothing yet. A seed of zero is replaced, as the generator
    /// would never leave zero.
    pub open spec fn starts_with(self, config: SamplingConfig) -> bool {
        &&& self.well_formed()
        &&& self.configuration() == config
        &&& self.state() == (if config.seed == 0 {
            0x9e37_79b9_7f4a_7c15
        } else {
            config.seed
        })
    }

    pub fn new(config: SamplingConfig) -> (r: Result<Self, SamplingError>)
        ensures
            match r {
                Ok(sampler) => config.defect() is None && sampler.starts_with(config),
                Err(e) => config.defect() == Some(e),
            },
    {
        let config = match config.validate() {
            Ok(config) => config,
            Err(e) => {
                return Err(e);
            },
        };
        let random_state: u64 = if config.seed == 0 {
            0x9e37_79b9_7f4a_7c15
        } else {
            config.seed
        };
        Ok(Sampler { config, random_state })
    }

    /// How a token is chosen from logits of the given dimensions.
    pub fn route(&self, dims: &[usize]) -> (r: Result<SamplingRoute, SamplingError>)
        ensures
            r == (if !(dims@.len() == 2 && dims@[0] == 1) {
                Err::<SamplingRoute, SamplingError>(SamplingError::LogitsShape)
            } else if !self.configuration().temperature.is_equal(F32 { bits: 0 }) {
                Ok::<SamplingRoute, SamplingError>(SamplingRoute::HostDraw)
            } else if self.configuration().repetition_penalty.is_equal(F32 { bits: 0x3f80_0000 }) {
                Ok::<SamplingRoute, SamplingError>(SamplingRoute::DeviceArgmax)
            } else {
                Ok::<SamplingRoute, SamplingError>(SamplingRoute::HostArgmax)
            }),
    {
        if !(dims.len() == 2 && dims[0] == 1) {
            return Err(SamplingError::LogitsShape);
        }
        if !self.config.temperature.equals(F32 { bits: 0 }) {
            Ok(SamplingRoute::HostDraw)
        } else if self.config.repetition_penalty.equals(F32 { bits: 0x3f80_0000 }) {
            Ok(SamplingRoute::DeviceArgmax)
        } else {
            Ok(SamplingRoute::HostArgmax)
        }
    }

    /// The next 53 random bits: the numerator of a uniform draw from the unit interval.
    pub fn next_unit_numerator(&mut self) -> (r: u64)
        requires
            old(self).well_formed(),
        ensures
            final(self).well_formed(),
            final(self).configuration() == old(self).configuration(),
            final(self).state() == xorshift(old(self).state()),
            r == final(self).state() >> 11,
            r < 0x20_0000_0000_0000,
    {
        let mut value: u64 = self.random_state;
        proof {
            xorshift_never_reaches_zero(value);
        }
        value = value ^ (value << 13);
        value = value ^ (value >> 7);
        value = value ^ (value << 17);
        self.random_state = value;
        assert(value >> 11 < 0x20_0000_0000_0000u64) by (bit_vector);
        value >> 11
    }

    /// How many of `available` candidates a draw considers.
    pub fn kept_candidates(&self, available: usize) -> (r: usize)
        ensures
            r == crate::num::min_int(self.configuration().top_k as int, available as int),
    {
        min_usize(self.config.top_k, available)
    }
}

/// The generator never reaches the state from which it could not leave.
pub proof fn xorshift_never_reaches_zero(state: u64)
    requires
        state != 0,
    ensures
        xorshift(state) != 0,
{
    assert(state != 0 ==> {
        let a = state ^ (state << 13);
        let b = a ^ (a >> 7);
        b ^ (b << 17) != 0
    }) by (bit_vector);
}

/// Samplers made with equal seeds draw equal numbers for as long as they draw, whatever else
/// they are configured to do, and never get stuck.
pub proof fn equal_seeds_draw_equal_streams(
    left: Sampler,
    right: Sampler,
    a: SamplingConfig,
    b: SamplingConfig,
    steps: nat,
)
    requires
        left.starts_with(a),
        right.starts_with(b),
        a.seed == b.seed,
    ensures
        stream(left.state(), steps) == stream(right.state(), steps),
        stream(left.state(), steps) != 0,
    decreases steps,
{
    if steps > 0 {
        equal_seeds_draw_equal_streams(left, right, a, b, (steps - 1) as nat);
        xorshift_never_reaches_zero(stream(left.state(), (steps - 1) as nat));
    }
}

/// The generator's state after `steps` draws.
pub open spec fn stream(state: u64, steps: nat) -> u64
    decreases steps,
{
    if steps == 0 {
        state
    } else {
        xorshift(stream(state, (steps - 1) as nat))
    }
}

/// Widens the logits and says which of them the repetition penalty changes, and how.
pub fn raw_candidates(logits: &[Bf16], history: &[u32]) -> (r: Vec<RawCandidate>)
    requires
        logits@.len() <= 0x1_0000_0000,
    ensures
        r@.len() == logits@.len(),
        forall|i: int|
            0 <= i < logits@.len() ==> #[trigger] r@[i] == raw_candidate(logits@, history@, i),
{
    let vocabulary: usize = logits.len();
    let mut repeated: Vec<bool> = Vec::new();
    repeated.resize(vocabulary, false);
    let mut seen: usize = 0;
    while seen < history.len()
        invariant
            seen <= history@.len(),
            vocabulary == logits@.len(),
            vocabulary <= 0x1_0000_0000,
            repeated@.len() == vocabulary,
            forall|i: int|
                0 <= i < vocabulary ==> (#[trigger] repeated@[i] <==> exists|h: int|
                    0 <= h < seen && history@[h] == i as u32),
        decreases history@.len() - seen,
    {
        let token: usize = history[seen] as usize;
        let ghost before = repeated@;
        if token < vocabulary {
            repeated.set(token, true);
        }
        proof {
            assert forall|i: int| 0 <= i < vocabulary implies (#[trigger] repeated@[i]
                <==> exists|h: int| 0 <= h < seen + 1 && history@[h] == i as u32) by {
                assert((i as u32) as int == i);
                if i == token {
                    assert(history@[seen as int] == i as u32);
                } else {
                    assert(repeated@[i] == before[i]);
                    if exists|h: int| 0 <= h < seen + 1 && history@[h] == i as u32 {
                        let h = choose|h: int| 0 <= h < seen + 1 && history@[h] == i as u32;
                        assert(h < seen);
                    }
                }
            }
        }
        seen = seen + 1;
    }
    let mut r: Vec<RawCandidate> = Vec::new();
    let mut index: usize = 0;
    while index < vocabulary
        invariant
            index <= vocabulary,
            vocabulary == logits@.len(),
            vocabulary <= 0x1_0000_0000,
            repeated@.len() == vocabulary,
            forall|i: int|
                0 <= i < vocabulary ==> (#[trigger] repeated@[i] <==> exists|h: int|
                    0 <= h < history@.len() && history@[h] == i as u32),
            r@.len() == index,
            forall|i: int|
                0 <= i < index ==> #[trigger] r@[i] == raw_candidate(logits@, history@, i),
        decreases vocabulary - index,
    {
        let score: F32 = widen(logits[index]);
        let penalty = if !repeated[index] {
            PenaltyStep::Keep
        } else if score.at_least(F32 { bits: 0 }) {
            PenaltyStep::Divide
        } else {
            PenaltyStep::Multiply
        };
        assert(repeated@[index as int] == history@.contains(index as u32));
        r.push(RawCandidate { token: index as u32, score, penalty });
        index = index + 1;
    }
    r
}

/// The position of the largest score; of equal ones the last.
pub fn last_maximum(scores: &[F32]) -> (r: Result<usize, SamplingError>)
    ensures
        match r {
            Ok(index) => is_last_maximum(scores@, index as int),
            Err(e) => scores@.len() == 0 && e == SamplingError::EmptyLogits,
        },
{
    if scores.len() == 0 {
        return Err(SamplingError::EmptyLogits);
    }
    let mut best: usize = 0;
    let mut index: usize = 1;
    while index < scores.len()
        invariant
            best < index <= scores@.len(),
            forall|j: int|
                0 <= j < index ==> (#[trigger] scores@[j]).total_order()
                    < scores@[best as int].total_order() || scores@[j].total_order()
                    == scores@[best as int].total_order() && j <= best,
        decreases scores@.len() - index,
    {
        if scores[index].total_order_key() >= scores[best].total_order_key() {
            best = index;
        }
        index = index + 1;
    }
    Ok(best)
}

/// `(rank, position)` pairs, a smaller rank for a larger score.
pub open spec fn ranked(scores: Seq<F32>) -> Seq<(i64, usize)> {
    Seq::new(scores.len(), |i: int| ((-scores[i].total_order() - 1) as i64, i as usize))
}

/// Calls `slice::select_nth_unstable_by_key` with the first component as key.
///
/// Claimed, as std documents it: the entries are reordered, and none at or before `nth`
/// has a larger key than any behind `nth`. Which of several entries with equal keys come
/// first is left open.
#[verifier::external_body]
fn partition_by_rank(entries: &mut Vec<(i64, usize)>, nth: usize)
    requires
        nth < old(entries)@.len(),
    ensures
        final(entries)@.to_multiset() == old(entries)@.to_multiset(),
        forall|i: int, j: int|
            0 <= i <= nth < j < final(entries)@.len() ==> final(entries)@[i].0
                <= final(entries)@[j].0,
{
    entries.select_nth_unstable_by_key(nth, |entry| entry.0);
}

/// `kept` are `keep` different positions, and no position left out has a larger score
/// than one of them.
pub open spec fn is_top(scores: Seq<F32>, keep: int, kept: Seq<usize>) -> bool {
    &&& kept.len() == keep
    &&& kept.no_duplicates()
    &&& forall|i: int| 0 <= i < kept.len() ==> #[trigger] kept[i] < scores.len()
    &&& forall|i: int, j: int|
        0 <= i < kept.len() && 0 <= j < scores.len() && !kept.contains(j as usize)
            ==> (#[trigger] scores[j]).total_order() <= scores[(#[trigger] kept[i]) as int].total_order()
}

spec fn lists_position(entries: Seq<(i64, usize)>, position: int) -> bool {
    exists|i: int| 0 <= i < entries.len() && (#[trigger] entries[i]).1 == position
}

proof fn lemma_ranked_positions(scores: Seq<F32>, entries: Seq<(i64, usize)>)
    requires
        scores.len() <= usize::MAX,
        entries.to_multiset() == ranked(scores).to_multiset(),
    ensures
        entries.len() == scores.len(),
        forall|i: int|
            0 <= i < entries.len() ==> (#[trigger] entries[i]).1 < scores.len() && entries[i].0
                == -scores[entries[i].1 as int].total_order() - 1,
        forall|i: int, j: int|
            0 <= i < j < entries.len() ==> (#[trigger] entries[i]).1 != (#[trigger] entries[j]).1,
        forall|p: int| 0 <= p < scores.len() ==> #[trigger] lists_position(entries, p),
{
    broadcast use vstd::seq_lib::group_to_multiset_ensures;

    let base = ranked(scores);
    assert(entries.to_multiset().len() == entries.len());
    assert(base.to_multiset().len() == base.len());
    assert forall|i: int| 0 <= i < entries.len() implies (#[trigger] entries[i]).1 < scores.len()
        && entries[i].0 == -scores[entries[i].1 as int].total_order() - 1 by {
        assert(entries.contains(entries[i]));
        assert(entries.to_multiset().contains(entries[i]));
        assert(base.contains(entries[i]));
        let k = choose|k: int| 0 <= k < base.len() && base[k] == entries[i];
        assert(base[k] == entries[i]);
    }
    assert(base.no_duplicates()) by {
        assert forall|i: int, j: int| 0 <= i < base.len() && 0 <= j < base.len() && i != j implies base[i]
            != base[j] by {
            assert(base[i].1 == i && base[j].1 == j);
        }
    }
    base.lemma_multiset_has_no_duplicates();
    entries.lemma_multiset_has_no_duplicates_conv();
    assert forall|i: int, j: int| 0 <= i < j < entries.len() implies (#[trigger] entries[i]).1 != (
    #[trigger] entries[j]).1 by {
        assert(entries[i] != entries[j]);
    }
    assert forall|p: int| 0 <= p < scores.len() implies #[trigger] lists_position(entries, p) by {
        assert(base.contains(base[p]));
        assert(base.to_multiset().contains(base[p]));
        assert(entries.contains(base[p]));
        let i = choose|i: int| 0 <= i < entries.len() && entries[i] == base[p];
        assert(entries[i].1 == p);
    }
}

/// The positions of the `keep` largest scores, in no particular order.
pub fn top_candidates(scores: &[F32], keep: usize) -> (r: Vec<usize>)
    requires
        keep <= scores@.len(),
        scores@.len() > 0 ==> keep > 0,
    ensures
        is_top(scores@, keep as int, r@),
        keep == scores@.len() ==> forall|i: int| 0 <= i < keep ==> #[trigger] r@[i] == i,
{
    let total: usize = scores.len();
    let mut entries: Vec<(i64, usize)> = Vec::new();
    let mut index: usize = 0;
    while index < total
        invariant
            index <= total,
            total == scores@.len(),
            entries@ == ranked(scores@).take(index as int),
        decreases total - index,
    {
        let rank: i64 = -scores[index].total_order_key() - 1;
        entries.push((rank, index));
        index = index + 1;
        assert(entries@ =~= ranked(scores@).take(index as int));
    }
    assert(entries@ =~= ranked(scores@));
    if keep < total {
        partition_by_rank(&mut entries, keep - 1);
    }
    proof {
        lemma_ranked_positions(scores@, entries@);
    }
    let mut r: Vec<usize> = Vec::new();
    let mut taken: usize = 0;
    while taken < keep
        invariant
            taken <= keep <= entries@.len(),
            r@.len() == taken,
            forall|i: int| 0 <= i < taken ==> #[trigger] r@[i] == entries@[i].1,
        decreases keep - taken,
    {
        r.push(entries[taken].1);
        taken = taken + 1;
    }
    proof {
        assert(r@.no_duplicates()) by {
            assert forall|i: int, j: int| 0 <= i < r@.len() && 0 <= j < r@.len() && i != j implies r@[i]
                != r@[j] by {
                if i < j {
                    assert(entries@[i].1 != entries@[j].1);
                } else {
                    assert(entries@[j].1 != entries@[i].1);
                }
            }
        }
        assert forall|i: int, j: int|
            0 <= i < r@.len() && 0 <= j < scores@.len() && !r@.contains(j as usize) implies (
        #[trigger] scores@[j]).total_order() <= scores@[(#[trigger] r@[i]) as int].total_order() by {
            assert(lists_position(entries@, j));
            let k = choose|k: int| 0 <= k < entries@.len() && (#[trigger] entries@[k]).1 == j;
            if k < keep {
                assert(r@[k] == j as usize);
            }
            assert(entries@[i].0 <= entries@[k].0);
        }
    }
    r
}

/// Whether the sum of all probabilities can be drawn from.
pub fn check_probability_total(total: F64) -> (r: Result<(), SamplingError>)
    ensures
        r == (if total.finite() && total.is_above(F64 { bits: 0 }) {
            Ok::<(), SamplingError>(())
        } else {
            Err::<(), SamplingError>(SamplingError::Probabilities)
        }),
{
    if total.is_finite() && total.above(F64 { bits: 0 }) {
        Ok(())
    } else {
        Err(SamplingError::Probabilities)
    }
}

/// The drawn candidate: the first whose probability covers what is left of the threshold
/// when it is reached, or the last one if none does. `thresholds[i]` is what is left of
/// the draw before candidate `i`.
pub fn drawn_candidate(thresholds: &[F64], probabilities: &[F64]) -> (r: usize)
    requires
        thresholds@.len() == probabilities@.len(),
        probabilities@.len() > 0,
    ensures
        r < probabilities@.len(),
        forall|i: int|
            0 <= i < r ==> !probabilities@[i].is_at_least(#[trigger] thresholds@[i]),
        probabilities@[r as int].is_at_least(thresholds@[r as int]) || r == probabilities@.len()
            - 1,
{
    let mut index: usize = 0;
    while index < probabilities.len() - 1
        invariant
            index <= probabilities@.len() - 1,
            thresholds@.len() == probabilities@.len(),
            probabilities@.len() > 0,
            forall|i: int|
                0 <= i < index ==> !probabilities@[i].is_at_least(#[trigger] thresholds@[i]),
        decreases probabilities@.len() - index,
    {
        if probabilities[index].at_least(thresholds[index]) {
            return index;
        }
        index = index + 1;
    }
    index
}

/// With every position kept nothing is lost, and with one kept it is a largest one.
pub proof fn top_of_one_is_a_maximum(scores: Seq<F32>, kept: Seq<usize>)
    requires
        is_top(scores, 1, kept),
        scores.len() <= usize::MAX,
    ensures
        forall|j: int|
            0 <= j < scores.len() ==> (#[trigger] scores[j]).total_order()
                <= scores[kept[0] as int].total_order(),
{
    assert forall|j: int| 0 <= j < scores.len() implies (#[trigger] scores[j]).total_order()
        <= scores[kept[0] as int].total_order() by {
        if kept.contains(j as usize) {
            let k = choose|k: int| 0 <= k < kept.len() && kept[k] == j as usize;
            assert(k == 0);
        }
    }
}

} // verus!
