//! Calibration statistics: magnitude histograms, sampled activations and their bookkeeping.
//!
//! Sums of magnitudes are kept by the application, which adds them in floating point; all
//! counts, the histogram and everything read from it are kept here.
use vstd::prelude::*;

use crate::bf16::{widen, Bf16};
use crate::float::F32;
#[allow(unused_imports)]
use crate::num::{max_int, min_int};
use crate::num::{max_usize, min_usize};
use crate::order::{rank_descending, text_precedes};
#[allow(unused_imports)]
use crate::order::{is_ranking, text_before};
use crate::text::text_eq;

verus! {

/// What a tensor was observed in.
#[derive(Clone, Copy, Debug, PartialEq, Eq, Structural)]
pub enum CalibrationPhase {
    Weight,
    Prefill,
    Decode,
}

#[derive(Clone, Copy, Debug, PartialEq, Eq, Structural)]
pub enum CalibrationTensorKind {
    Activation,
    Weight,
}

impl CalibrationPhase {
    /// The place of the phase in reports.
    pub open spec fn rank(self) -> int {
        match self {
            CalibrationPhase::Weight => 0,
            CalibrationPhase::Prefill => 1,
            CalibrationPhase::Decode => 2,
        }
    }

    fn place(self) -> (r: u8)
        ensures
            r == self.rank(),
    {
        match self {
            CalibrationPhase::Weight => 0,
            CalibrationPhase::Prefill => 1,
            CalibrationPhase::Decode => 2,
        }
    }
}

#[derive(Clone, Copy, Debug, PartialEq, Eq, Structural)]
pub enum CalibrationError {
    RankZero,
    /// The tensor has no features, or no rows.
    EmptyTensor,
    NotRankTwo,
    OffsetOverflow,
    FeatureSizeChanged { before: usize, now: usize },
    SampleFeatureSizeChanged,
    /// Activations are not observed in the weight phase.
    WeightPhase,
    EmptySequence,
    TokenCountOverflow,
    EmptyContext,
    NoSequences,
    /// Not every sequence had exactly one calibrated prefill.
    PrefillCount { prefills: usize, sequences: usize },
    NoDecodeObservations,
    SiteCount { phase: CalibrationPhase, observed: usize },
}

/// Bins of the histogram: one for every magnitude of a bf16 value.
pub const BF16_MAGNITUDE_BINS: usize = 32768;

fn magnitude_of(value: Bf16) -> (r: u16)
    ensures
        r == value.magnitude(),
        r < 0x8000,
{
    if value.bits >= 0x8000 {
        value.bits - 0x8000
    } else {
        value.bits
    }
}

/// Statistics of one tensor over all its observations.
#[derive(Debug)]
pub struct TensorStatistics {
    pub kind: CalibrationTensorKind,
    pub feature_size: usize,
    pub min_rows: usize,
    pub max_rows: usize,
    pub observations: u64,
    pub finite_values: u64,
    pub non_finite_values: u64,
    pub zeros: u64,
    /// The largest finite magnitude.
    pub amax: u16,
    pub histogram: Vec<u64>,
}

/// The contents of [`TensorStatistics`].
#[verifier::ext_equal]
pub struct StatisticsView {
    pub kind: CalibrationTensorKind,
    pub feature_size: usize,
    pub min_rows: usize,
    pub max_rows: usize,
    pub observations: u64,
    pub finite_values: u64,
    pub non_finite_values: u64,
    pub zeros: u64,
    pub amax: u16,
    pub histogram: Seq<u64>,
}

impl View for TensorStatistics {
    type V = StatisticsView;

    open spec fn view(&self) -> StatisticsView {
        StatisticsView {
            kind: self.kind,
            feature_size: self.feature_size,
            min_rows: self.min_rows,
            max_rows: self.max_rows,
            observations: self.observations,
            finite_values: self.finite_values,
            non_finite_values: self.non_finite_values,
            zeros: self.zeros,
            amax: self.amax,
            histogram: self.histogram@,
        }
    }
}

/// The sum of the first `upto` counts.
pub open spec fn total(counts: Seq<u64>, upto: int) -> int
    decreases upto,
{
    if upto <= 0 {
        0
    } else {
        total(counts, upto - 1) + counts[upto - 1]
    }
}

impl StatisticsView {
    /// Unless a counter is exhausted, the histogram holds every finite value once; no value
    /// lies above the largest magnitude.
    pub open spec fn well_formed(self) -> bool {
        &&& self.histogram.len() == BF16_MAGNITUDE_BINS
        &&& self.finite_values < u64::MAX ==> total(self.histogram, BF16_MAGNITUDE_BINS as int)
            == self.finite_values
        &&& forall|b: int|
            self.amax < b < BF16_MAGNITUDE_BINS ==> #[trigger] self.histogram[b] == 0
        &&& self.amax < BF16_MAGNITUDE_BINS
    }

    /// The statistics with one more value.
    pub open spec fn with_value(self, value: Bf16) -> StatisticsView {
        if value.finite() {
            StatisticsView {
                finite_values: self.finite_values.saturating_add(1),
                zeros: if value.magnitude() == 0 {
                    self.zeros.saturating_add(1)
                } else {
                    self.zeros
                },
                amax: max_int(self.amax as int, value.magnitude()) as u16,
                histogram: self.histogram.update(
                    value.magnitude(),
                    self.histogram[value.magnitude()].saturating_add(1),
                ),
                ..self
            }
        } else {
            StatisticsView {
                non_finite_values: self.non_finite_values.saturating_add(1),
                ..self
            }
        }
    }

    /// The statistics with the first `upto` values.
    pub open spec fn with_values(self, values: Seq<Bf16>, upto: int) -> StatisticsView
        decreases upto,
    {
        if upto <= 0 {
            self
        } else {
            self.with_values(values, upto - 1).with_value(values[upto - 1])
        }
    }

    /// The statistics after an observation of `rows` rows.
    pub open spec fn observed(self, values: Seq<Bf16>, rows: usize) -> StatisticsView {
        StatisticsView {
            min_rows: min_int(self.min_rows as int, rows as int) as usize,
            max_rows: max_int(self.max_rows as int, rows as int) as usize,
            observations: self.observations.saturating_add(1),
            ..self
        }.with_values(values, values.len() as int)
    }

    /// Nothing observed yet.
    pub open spec fn fresh(kind: CalibrationTensorKind, feature_size: usize, rows: usize) -> StatisticsView {
        StatisticsView {
            kind,
            feature_size,
            min_rows: rows,
            max_rows: rows,
            observations: 0,
            finite_values: 0,
            non_finite_values: 0,
            zeros: 0,
            amax: 0,
            histogram: Seq::new(BF16_MAGNITUDE_BINS as nat, |i: int| 0u64),
        }
    }
}

proof fn lemma_total_of_update(counts: Seq<u64>, bin: int, upto: int)
    requires
        0 <= bin < counts.len(),
        0 <= upto <= counts.len(),
        counts[bin] < u64::MAX,
    ensures
        total(counts.update(bin, (counts[bin] + 1) as u64), upto) == total(counts, upto) + (
        if bin < upto {
            1int
        } else {
            0int
        }),
    decreases upto,
{
    if upto > 0 {
        lemma_total_of_update(counts, bin, upto - 1);
    }
}

proof fn lemma_total_grows(counts: Seq<u64>, a: int, b: int)
    requires
        0 <= a <= b <= counts.len(),
    ensures
        0 <= total(counts, a) <= total(counts, b),
    decreases b,
{
    if a < b {
        lemma_total_grows(counts, a, b - 1);
    } else if a > 0 {
        lemma_total_grows(counts, a - 1, a - 1);
    }
}

proof fn lemma_zero_total(counts: Seq<u64>, upto: int)
    requires
        0 <= upto <= counts.len(),
        forall|i: int| 0 <= i < counts.len() ==> #[trigger] counts[i] == 0,
    ensures
        total(counts, upto) == 0,
    decreases upto,
{
    if upto > 0 {
        lemma_zero_total(counts, upto - 1);
    }
}

proof fn lemma_value_keeps_statistics(before: StatisticsView, value: Bf16)
    requires
        before.well_formed(),
    ensures
        before.with_value(value).well_formed(),
{
    if value.finite() {
        let bin = value.magnitude();
        let after = before.with_value(value);
        if after.finite_values < u64::MAX {
            lemma_total_grows(before.histogram, 0, bin);
            lemma_total_grows(before.histogram, bin + 1, BF16_MAGNITUDE_BINS as int);
            assert(total(before.histogram, bin + 1) == total(before.histogram, bin)
                + before.histogram[bin]);
            assert(before.histogram[bin] < u64::MAX);
            lemma_total_of_update(before.histogram, bin, BF16_MAGNITUDE_BINS as int);
        }
    }
}

/// `bin` is the first bin up to which at least `target` values lie.
pub open spec fn is_rank_bin(counts: Seq<u64>, target: int, bin: int) -> bool {
    &&& 0 <= bin < counts.len()
    &&& total(counts, bin + 1) >= target
    &&& total(counts, bin) < target
}

impl TensorStatistics {
    pub fn new(kind: CalibrationTensorKind, feature_size: usize, rows: usize) -> (r: Self)
        ensures
            r@ == StatisticsView::fresh(kind, feature_size, rows),
            r@.well_formed(),
    {
        let mut histogram: Vec<u64> = Vec::new();
        histogram.resize(BF16_MAGNITUDE_BINS, 0);
        assert(histogram@ =~= Seq::new(BF16_MAGNITUDE_BINS as nat, |i: int| 0u64));
        proof {
            lemma_zero_total(histogram@, BF16_MAGNITUDE_BINS as int);
        }
        TensorStatistics {
            kind,
            feature_size,
            min_rows: rows,
            max_rows: rows,
            observations: 0,
            finite_values: 0,
            non_finite_values: 0,
            zeros: 0,
            amax: 0,
            histogram,
        }
    }

    /// Takes in an observation.
    pub fn observe(&mut self, values: &[Bf16], feature_size: usize, rows: usize) -> (r: Result<
        (),
        CalibrationError,
    >)
        requires
            old(self)@.well_formed(),
        ensures
            final(self)@.well_formed(),
            final(self)@.kind == old(self)@.kind,
            match r {
                Ok(()) => feature_size == old(self)@.feature_size && final(self)@ == old(
                    self,
                )@.observed(values@, rows),
                Err(e) => feature_size != old(self)@.feature_size && *final(self) == *old(self)
                    && e == (CalibrationError::FeatureSizeChanged {
                    before: old(self)@.feature_size,
                    now: feature_size,
                }),
            },
    {
        if self.feature_size != feature_size {
            return Err(
                CalibrationError::FeatureSizeChanged {
                    before: self.feature_size,
                    now: feature_size,
                },
            );
        }
        self.min_rows = min_usize(self.min_rows, rows);
        self.max_rows = max_usize(self.max_rows, rows);
        self.observations = self.observations.saturating_add(1);
        let ghost start = self@;
        let mut index: usize = 0;
        while index < values.len()
            invariant
                index <= values@.len(),
                self@ == start.with_values(values@, index as int),
                self@.kind == start.kind,
                self@.well_formed(),
            decreases values@.len() - index,
        {
            let ghost before = self@;
            let magnitude: u16 = magnitude_of(values[index]);
            proof {
                lemma_value_keeps_statistics(before, values@[index as int]);
            }
            let widened: F32 = widen(Bf16 { bits: magnitude });
            if !widened.is_finite() {
                self.non_finite_values = self.non_finite_values.saturating_add(1);
            } else {
                self.finite_values = self.finite_values.saturating_add(1);
                if magnitude == 0 {
                    self.zeros = self.zeros.saturating_add(1);
                }
                if magnitude > self.amax {
                    self.amax = magnitude;
                }
                let bin: usize = magnitude as usize;
                let count: u64 = self.histogram[bin].saturating_add(1);
                self.histogram.set(bin, count);
            }
            assert(self@ =~= before.with_value(values@[index as int]));
            index = index + 1;
        }
        Ok(())
    }

    /// The magnitude that at least `rank` values do not exceed, where `rank` is the ceiling of
    /// the wanted fraction of all finite values; zero if there are none.
    pub fn percentile(&self, rank: u64) -> (r: Bf16)
        requires
            self@.well_formed(),
        ensures
            ({
                let target = max_int(rank as int, 1);
                if self@.finite_values == 0 {
                    r.bits == 0
                } else if exists|bin: int| #[trigger] is_rank_bin(self@.histogram, target, bin) {
                    is_rank_bin(self@.histogram, target, r.bits as int)
                } else {
                    r.bits == self@.amax
                }
            }),
    {
        if self.finite_values == 0 {
            return Bf16 { bits: 0 };
        }
        let target: u64 = if rank >= 1 {
            rank
        } else {
            1
        };
        let mut cumulative: u64 = 0;
        let mut bin: usize = 0;
        while bin < BF16_MAGNITUDE_BINS
            invariant
                bin <= BF16_MAGNITUDE_BINS,
                self.histogram@.len() == BF16_MAGNITUDE_BINS,
                cumulative < target,
                cumulative == total(self.histogram@, bin as int),
                target == max_int(rank as int, 1),
                self.finite_values > 0,
            decreases BF16_MAGNITUDE_BINS - bin,
        {
            let next: u64 = cumulative.saturating_add(self.histogram[bin]);
            if next >= target {
                assert(is_rank_bin(self.histogram@, target as int, bin as int));
                return Bf16 { bits: bin as u16 };
            }
            cumulative = next;
            bin = bin + 1;
        }
        proof {
            assert forall|b: int| !#[trigger] is_rank_bin(self.histogram@, target as int, b) by {
                if 0 <= b < self.histogram@.len() {
                    lemma_total_grows(self.histogram@, b + 1, BF16_MAGNITUDE_BINS as int);
                }
            }
        }
        Bf16 { bits: self.amax }
    }

    /// How many finite values lie in bins above the threshold's; none if the threshold is
    /// not a number at or above zero.
    pub fn count_above(&self, threshold: F32) -> (r: u64)
        requires
            self@.well_formed(),
        ensures
            r == (if self@.finite_values == 0 || !threshold.finite() || threshold.order() < 0 {
                0
            } else {
                min_int(
                    total(self@.histogram, BF16_MAGNITUDE_BINS as int) - total(
                        self@.histogram,
                        threshold.narrowed().magnitude() + 1,
                    ),
                    u64::MAX as int,
                )
            }),
    {
        if self.finite_values == 0 || !threshold.is_finite() || !threshold.at_least(
            F32 { bits: 0 },
        ) {
            return 0;
        }
        let start: usize = magnitude_of(threshold.narrow()) as usize + 1;
        let mut above: u64 = 0;
        let mut bin: usize = start;
        while bin < BF16_MAGNITUDE_BINS
            invariant
                start <= bin <= BF16_MAGNITUDE_BINS,
                self.histogram@.len() == BF16_MAGNITUDE_BINS,
                above == min_int(
                    total(self.histogram@, bin as int) - total(self.histogram@, start as int),
                    u64::MAX as int,
                ),
                total(self.histogram@, bin as int) >= total(self.histogram@, start as int),
            decreases BF16_MAGNITUDE_BINS - bin,
        {
            above = above.saturating_add(self.histogram[bin]);
            bin = bin + 1;
        }
        above
    }

    /// The largest finite magnitude.
    pub fn amax(&self) -> (r: Bf16)
        ensures
            r.bits == self@.amax,
    {
        Bf16 { bits: self.amax }
    }
}

/// A larger rank never gives a smaller percentile.
pub proof fn percentiles_are_monotone(counts: Seq<u64>, low: int, high: int, a: int, b: int)
    requires
        low <= high,
        is_rank_bin(counts, low, a),
        is_rank_bin(counts, high, b),
    ensures
        a <= b,
{
    if b < a {
        lemma_total_grows(counts, b + 1, a);
    }
}

/// While no counter is exhausted, every rank up to the number of finite values has its bin,
/// which lies at or below the largest magnitude.
pub proof fn every_rank_has_a_bin(statistics: StatisticsView, target: int)
    requires
        statistics.well_formed(),
        statistics.finite_values < u64::MAX,
        1 <= target <= statistics.finite_values,
    ensures
        exists|bin: int|
            #[trigger] is_rank_bin(statistics.histogram, target, bin) && bin <= statistics.amax,
{
    let bin = lemma_find_bin(statistics.histogram, target, BF16_MAGNITUDE_BINS as int);
    if bin > statistics.amax {
        assert(statistics.histogram[bin] == 0);
    }
}

proof fn lemma_find_bin(counts: Seq<u64>, target: int, upto: int) -> (bin: int)
    requires
        0 <= upto <= counts.len(),
        1 <= target <= total(counts, upto),
    ensures
        is_rank_bin(counts, target, bin),
    decreases upto,
{
    if upto > 0 && total(counts, upto - 1) >= target {
        lemma_find_bin(counts, target, upto - 1)
    } else {
        upto - 1
    }
}

/// How many of the first `upto` values are finite and of a magnitude below `bin`.
pub open spec fn values_below(values: Seq<Bf16>, bin: int, upto: int) -> int
    decreases upto,
{
    if upto <= 0 {
        0
    } else {
        values_below(values, bin, upto - 1) + if values[upto - 1].finite() && values[upto
            - 1].magnitude() < bin {
            1int
        } else {
            0int
        }
    }
}

proof fn lemma_counts_are_exact(before: StatisticsView, values: Seq<Bf16>, bin: int, upto: int)
    requires
        before.well_formed(),
        0 <= upto <= values.len(),
        before.finite_values + upto < u64::MAX,
        0 <= bin <= BF16_MAGNITUDE_BINS,
    ensures
        ({
            let after = before.with_values(values, upto);
            &&& after.well_formed()
            &&& after.finite_values <= before.finite_values + upto
            &&& total(after.histogram, bin) == total(before.histogram, bin) + values_below(
                values,
                bin,
                upto,
            )
        }),
    decreases upto,
{
    if upto > 0 {
        lemma_counts_are_exact(before, values, bin, upto - 1);
        let sofar = before.with_values(values, upto - 1);
        let value = values[upto - 1];
        lemma_value_keeps_statistics(sofar, value);
        if value.finite() {
            let place = value.magnitude();
            lemma_total_grows(sofar.histogram, 0, place);
            lemma_total_grows(sofar.histogram, place + 1, BF16_MAGNITUDE_BINS as int);
            assert(total(sofar.histogram, place + 1) == total(sofar.histogram, place)
                + sofar.histogram[place]);
            lemma_total_of_update(sofar.histogram, place, bin);
        }
    }
}

/// Observing counts exactly: below every magnitude the histogram gains as many values as the
/// observation has there, until a counter is exhausted.
pub proof fn observing_counts_every_value(
    before: StatisticsView,
    values: Seq<Bf16>,
    rows: usize,
    bin: int,
)
    requires
        before.well_formed(),
        before.finite_values + values.len() < u64::MAX,
        0 <= bin <= BF16_MAGNITUDE_BINS,
    ensures
        total(before.observed(values, rows).histogram, bin) == total(before.histogram, bin)
            + values_below(values, bin, values.len() as int),
{
    let counted = StatisticsView {
        min_rows: min_int(before.min_rows as int, rows as int) as usize,
        max_rows: max_int(before.max_rows as int, rows as int) as usize,
        observations: before.observations.saturating_add(1),
        ..before
    };
    assert(counted.well_formed());
    lemma_counts_are_exact(counted, values, bin, values.len() as int);
}

/// Percentiles are exact: the magnitude of a rank is a magnitude that at least so many
/// observed values do not exceed, while fewer lie below it.
pub proof fn percentiles_are_exact(
    kind: CalibrationTensorKind,
    feature_size: usize,
    rows: usize,
    values: Seq<Bf16>,
    target: int,
    bin: int,
)
    requires
        values.len() < u64::MAX,
        is_rank_bin(
            StatisticsView::fresh(kind, feature_size, rows).observed(values, rows).histogram,
            target,
            bin,
        ),
    ensures
        values_below(values, bin, values.len() as int) < target,
        values_below(values, bin + 1, values.len() as int) >= target,
{
    let fresh = StatisticsView::fresh(kind, feature_size, rows);
    lemma_zero_total(fresh.histogram, BF16_MAGNITUDE_BINS as int);
    assert(fresh.well_formed());
    let counted = StatisticsView { observations: 1, ..fresh };
    assert(counted.well_formed());
    assert(fresh.observed(values, rows) == counted.with_values(values, values.len() as int));
    lemma_counts_are_exact(counted, values, 0, values.len() as int);
    assert(bin < BF16_MAGNITUDE_BINS);
    lemma_zero_total(fresh.histogram, bin);
    lemma_zero_total(fresh.histogram, bin + 1);
    observing_counts_every_value(fresh, values, rows, bin);
    observing_counts_every_value(fresh, values, rows, bin + 1);
}

/// Rows of a tensor whose last dimension holds the features.
pub fn calibration_rows(dims: &[usize], elements: usize) -> (r: Result<
    (usize, usize),
    CalibrationError,
>)
    ensures
        r == (if dims@.len() == 0 {
            Err::<(usize, usize), CalibrationError>(CalibrationError::RankZero)
        } else if dims@.last() == 0 {
            Err::<(usize, usize), CalibrationError>(CalibrationError::EmptyTensor)
        } else {
            Ok::<(usize, usize), CalibrationError>(
                (dims@.last(), (elements as int / dims@.last() as int) as usize),
            )
        }),
{
    if dims.len() == 0 {
        return Err(CalibrationError::RankZero);
    }
    let feature_size: usize = dims[dims.len() - 1];
    if feature_size == 0 {
        return Err(CalibrationError::EmptyTensor);
    }
    Ok((feature_size, elements / feature_size))
}

/// The elements of a matrix's last row.
#[derive(Clone, Copy, Debug, PartialEq, Eq, Structural)]
pub struct RowRange {
    pub start: usize,
    pub end: usize,
}

/// Where the last row of a matrix lies.
pub fn last_row_range(dims: &[usize]) -> (r: Result<RowRange, CalibrationError>)
    ensures
        r == (if dims@.len() != 2 {
            Err::<RowRange, CalibrationError>(CalibrationError::NotRankTwo)
        } else if dims@[0] == 0 || dims@[1] == 0 {
            Err::<RowRange, CalibrationError>(CalibrationError::EmptyTensor)
        } else if dims@[0] * dims@[1] > usize::MAX {
            Err::<RowRange, CalibrationError>(CalibrationError::OffsetOverflow)
        } else {
            Ok::<RowRange, CalibrationError>(
                RowRange {
                    start: ((dims@[0] - 1) * dims@[1]) as usize,
                    end: (dims@[0] * dims@[1]) as usize,
                },
            )
        }),
{
    if dims.len() != 2 {
        return Err(CalibrationError::NotRankTwo);
    }
    let rows: usize = dims[0];
    let width: usize = dims[1];
    if rows == 0 || width == 0 {
        return Err(CalibrationError::EmptyTensor);
    }
    proof {
        assert((rows - 1) * width + width == rows * width) by (nonlinear_arith);
        assert((rows - 1) * width >= 0) by (nonlinear_arith)
            requires
                rows >= 1,
        ;
    }
    let start: usize = match (rows - 1).checked_mul(width) {
        Some(start) => start,
        None => {
            return Err(CalibrationError::OffsetOverflow);
        },
    };
    match start.checked_add(width) {
        Some(end) => Ok(RowRange { start, end }),
        None => Err(CalibrationError::OffsetOverflow),
    }
}

/// Statistics of one site in one phase.
#[derive(Debug)]
pub struct CalibrationEntry {
    pub phase: CalibrationPhase,
    pub name: String,
    pub statistics: TensorStatistics,
}

#[verifier::ext_equal]
pub struct EntryView {
    pub phase: CalibrationPhase,
    pub name: Seq<char>,
    pub statistics: StatisticsView,
}

impl View for CalibrationEntry {
    type V = EntryView;

    open spec fn view(&self) -> EntryView {
        EntryView { phase: self.phase, name: self.name@, statistics: self.statistics@ }
    }
}

/// Sampled decode activations of one site.
#[derive(Debug)]
pub struct ActivationSamples {
    pub name: String,
    pub feature_size: usize,
    pub rows: usize,
    pub seen: u64,
    pub values: Vec<Bf16>,
}

#[verifier::ext_equal]
pub struct SamplesView {
    pub name: Seq<char>,
    pub feature_size: usize,
    pub rows: usize,
    pub seen: u64,
    pub values: Seq<Bf16>,
}

impl View for ActivationSamples {
    type V = SamplesView;

    open spec fn view(&self) -> SamplesView {
        SamplesView {
            name: self.name@,
            feature_size: self.feature_size,
            rows: self.rows,
            seen: self.seen,
            values: self.values@,
        }
    }
}

impl SamplesView {
    /// The samples are whole rows, and there are no more of them than allowed or seen.
    pub open spec fn well_formed(self, limit: int) -> bool {
        &&& self.values.len() == self.rows * self.feature_size
        &&& self.rows <= limit
        &&& self.rows <= self.seen
    }

    pub open spec fn empty(name: Seq<char>, feature_size: usize) -> SamplesView {
        SamplesView { name, feature_size, rows: 0, seen: 0, values: Seq::empty() }
    }

    /// The samples after one more row was seen: kept while there is room, after that put in
    /// the place that the draw names, if it is one of the kept places.
    pub open spec fn with_row(self, row: Seq<Bf16>, limit: int) -> SamplesView {
        let seen = self.seen.saturating_add(1);
        if self.rows < limit {
            SamplesView {
                seen,
                rows: (self.rows + 1) as usize,
                values: self.values + row,
                ..self
            }
        } else {
            let place = reservoir_draw(seen) as int;
            if place < limit {
                SamplesView {
                    seen,
                    values: row_replaced(self.values, place * self.feature_size, row),
                    ..self
                }
            } else {
                SamplesView { seen, ..self }
            }
        }
    }
}

/// The values with those from `start` on replaced by `row`.
pub open spec fn row_replaced(values: Seq<Bf16>, start: int, row: Seq<Bf16>) -> Seq<Bf16> {
    Seq::new(
        values.len(),
        |i: int|
            if start <= i < start + row.len() {
                row[i - start]
            } else {
                values[i]
            },
    )
}

/// Mixes the bits of a counter.
pub open spec fn mixed(seen: u64) -> u64 {
    let a = seen.wrapping_add(0x9e37_79b9_7f4a_7c15);
    let b = (a ^ (a >> 30)).wrapping_mul(0xbf58_476d_1ce4_e5b9);
    let c = (b ^ (b >> 27)).wrapping_mul(0x94d0_49bb_1331_11eb);
    c ^ (c >> 31)
}

/// The place that the `seen`-th row is drawn for.
pub open spec fn reservoir_draw(seen: u64) -> u64 {
    mixed(seen) % seen
}

fn draw(seen: u64) -> (r: u64)
    requires
        seen > 0,
    ensures
        r == reservoir_draw(seen),
{
    let a: u64 = seen.wrapping_add(0x9e37_79b9_7f4a_7c15);
    let b: u64 = (a ^ (a >> 30)).wrapping_mul(0xbf58_476d_1ce4_e5b9);
    let c: u64 = (b ^ (b >> 27)).wrapping_mul(0x94d0_49bb_1331_11eb);
    (c ^ (c >> 31)) % seen
}

impl ActivationSamples {
    fn add_row(&mut self, row: &[Bf16], limit: usize)
        requires
            old(self)@.well_formed(limit as int),
            row@.len() == old(self)@.feature_size,
            limit > 0,
        ensures
            final(self)@ == old(self)@.with_row(row@, limit as int),
            final(self)@.well_formed(limit as int),
    {
        let ghost before = self@;
        self.seen = self.seen.saturating_add(1);
        if self.rows < limit {
            proof {
                let r = self.rows as int;
                let f = self.feature_size as int;
                assert((r + 1) * f == r * f + f) by (nonlinear_arith);
            }
            self.rows = self.rows + 1;
            let mut index: usize = 0;
            while index < row.len()
                invariant
                    index <= row@.len(),
                    self.values@ == before.values + row@.take(index as int),
                    self.name@ == before.name,
                    self.feature_size == before.feature_size,
                    self.rows == before.rows + 1,
                    self.seen == before.seen.saturating_add(1),
                decreases row@.len() - index,
            {
                self.values.push(row[index]);
                assert(row@.take(index + 1) =~= row@.take(index as int).push(row@[index as int]));
                index = index + 1;
            }
            assert(row@.take(index as int) =~= row@);
        } else {
            let place: u64 = draw(self.seen);
            if place < limit as u64 {
                let kept: usize = place as usize;
                let width: usize = self.feature_size;
                proof {
                    let r = self.rows as int;
                    let f = width as int;
                    let p = kept as int;
                    assert(0 <= p * f && p * f + f <= r * f) by (nonlinear_arith)
                        requires
                            0 <= p < r,
                            0 <= f,
                    ;
                }
                let available: usize = self.values.len();
                assert(kept * width + width <= available);
                let start: usize = kept * width;
                let mut index: usize = 0;
                while index < width
                    invariant
                        index <= width,
                        width == row@.len(),
                        start + width <= self.values@.len() <= usize::MAX,
                        self.values@.len() == before.values.len(),
                        self.name@ == before.name,
                        self.feature_size == before.feature_size,
                        self.rows == before.rows,
                        self.seen == before.seen.saturating_add(1),
                        self.values@ == row_replaced(
                            before.values,
                            start as int,
                            row@.take(index as int),
                        ),
                    decreases width - index,
                {
                    self.values.set(start + index, row[index]);
                    index = index + 1;
                    assert(self.values@ =~= row_replaced(
                        before.values,
                        start as int,
                        row@.take(index as int),
                    ));
                }
                assert(row@.take(index as int) =~= row@);
            }
        }
    }
}

impl SamplesView {
    /// The sampled row at a place.
    pub open spec fn row(self, place: int) -> Seq<Bf16> {
        self.values.subrange(
            place * self.feature_size,
            place * self.feature_size + self.feature_size,
        )
    }
}

/// Sampling keeps rows whole: every row that is kept after one more was seen is that row, or
/// was kept at the same place before.
pub proof fn samples_are_seen_rows(samples: SamplesView, row: Seq<Bf16>, limit: int, place: int)
    requires
        samples.well_formed(limit),
        row.len() == samples.feature_size,
        samples.rows < usize::MAX,
        0 <= place < samples.with_row(row, limit).rows,
    ensures
        ({
            let after = samples.with_row(row, limit);
            after.row(place) == row || (place < samples.rows && after.row(place) == samples.row(
                place,
            ))
        }),
{
    let after = samples.with_row(row, limit);
    let width = samples.feature_size as int;
    let start = place * width;
    assert(0 <= start) by (nonlinear_arith)
        requires
            start == place * width,
            0 <= place,
            0 <= width,
    ;
    if samples.rows < limit {
        if place < samples.rows {
            assert(start + width <= samples.rows * width) by (nonlinear_arith)
                requires
                    start == place * width,
                    place < samples.rows,
                    0 <= width,
            ;
            assert(after.row(place) =~= samples.row(place));
        } else {
            assert(start == samples.values.len());
            assert(after.row(place) =~= row);
        }
    } else {
        assert(start + width <= samples.rows * width) by (nonlinear_arith)
            requires
                start == place * width,
                place < samples.rows,
                0 <= width,
        ;
        let drawn = reservoir_draw(samples.seen.saturating_add(1)) as int;
        if drawn < limit {
            let at = drawn * width;
            if drawn == place {
                assert(after.row(place) =~= row);
            } else if drawn < place {
                assert(at + width <= start) by (nonlinear_arith)
                    requires
                        at == drawn * width,
                        start == place * width,
                        drawn < place,
                        0 <= width,
                ;
                assert(after.row(place) =~= samples.row(place));
            } else {
                assert(start + width <= at) by (nonlinear_arith)
                    requires
                        at == drawn * width,
                        start == place * width,
                        place < drawn,
                        0 <= width,
                ;
                assert(after.row(place) =~= samples.row(place));
            }
        }
    }
}

/// Everything collected for a calibration. No site occurs twice in a phase.
#[derive(Debug)]
pub struct CalibrationCollector {
    pub entries: Vec<CalibrationEntry>,
    pub activation_phase: CalibrationPhase,
    pub decode_sample_limit: usize,
    pub samples: Vec<ActivationSamples>,
    pub sequences: usize,
    pub tokens: usize,
    pub min_sequence_tokens: usize,
    pub max_sequence_tokens: usize,
    pub prefill_forward_calls: usize,
    pub decode_forward_calls: usize,
    pub min_decode_context: usize,
    pub max_decode_context: usize,
}

/// The contents of [`CalibrationCollector`].
#[verifier::ext_equal]
pub struct CollectorView {
    pub entries: Seq<EntryView>,
    pub activation_phase: CalibrationPhase,
    pub decode_sample_limit: usize,
    pub samples: Seq<SamplesView>,
    pub sequences: usize,
    pub tokens: usize,
    pub min_sequence_tokens: usize,
    pub max_sequence_tokens: usize,
    pub prefill_forward_calls: usize,
    pub decode_forward_calls: usize,
    pub min_decode_context: usize,
    pub max_decode_context: usize,
}

impl View for CalibrationCollector {
    type V = CollectorView;

    open spec fn view(&self) -> CollectorView {
        CollectorView {
            entries: Seq::new(self.entries@.len(), |i: int| self.entries@[i]@),
            activation_phase: self.activation_phase,
            decode_sample_limit: self.decode_sample_limit,
            samples: Seq::new(self.samples@.len(), |i: int| self.samples@[i]@),
            sequences: self.sequences,
            tokens: self.tokens,
            min_sequence_tokens: self.min_sequence_tokens,
            max_sequence_tokens: self.max_sequence_tokens,
            prefill_forward_calls: self.prefill_forward_calls,
            decode_forward_calls: self.decode_forward_calls,
            min_decode_context: self.min_decode_context,
            max_decode_context: self.max_decode_context,
        }
    }
}

pub open spec fn entry_matches(entry: EntryView, phase: CalibrationPhase, name: Seq<char>) -> bool {
    entry.phase == phase && entry.name == name
}

impl CollectorView {
    pub open spec fn well_formed(self) -> bool {
        &&& self.activation_phase != CalibrationPhase::Weight
        &&& forall|i: int|
            0 <= i < self.entries.len() ==> (#[trigger] self.entries[i]).statistics.well_formed()
                && (self.entries[i].phase == CalibrationPhase::Weight <==> self.entries[i].statistics.kind
                == CalibrationTensorKind::Weight)
        &&& forall|i: int, j: int|
            0 <= i < j < self.entries.len() ==> !entry_matches(
                #[trigger] self.entries[j],
                (#[trigger] self.entries[i]).phase,
                self.entries[i].name,
            )
        &&& forall|i: int|
            0 <= i < self.samples.len() ==> (#[trigger] self.samples[i]).well_formed(
                self.decode_sample_limit as int,
            )
        &&& forall|i: int, j: int|
            0 <= i < j < self.samples.len() ==> (#[trigger] self.samples[i]).name != (
            #[trigger] self.samples[j]).name
    }

    /// `index` is the entry of a site, or the number of entries if it has none.
    pub open spec fn is_entry_index(self, phase: CalibrationPhase, name: Seq<char>, index: int) -> bool {
        &&& 0 <= index <= self.entries.len()
        &&& index < self.entries.len() ==> entry_matches(self.entries[index], phase, name)
        &&& index == self.entries.len() ==> forall|i: int|
            0 <= i < self.entries.len() ==> !entry_matches(#[trigger] self.entries[i], phase, name)
    }

    /// `index` is the sample set of a site, or the number of sets if it has none.
    pub open spec fn is_samples_index(self, name: Seq<char>, index: int) -> bool {
        &&& 0 <= index <= self.samples.len()
        &&& index < self.samples.len() ==> self.samples[index].name == name
        &&& index == self.samples.len() ==> forall|i: int|
            0 <= i < self.samples.len() ==> (#[trigger] self.samples[i]).name != name
    }

    /// The phase that an observation of this kind belongs to.
    pub open spec fn phase_of(self, kind: CalibrationTensorKind) -> CalibrationPhase {
        match kind {
            CalibrationTensorKind::Weight => CalibrationPhase::Weight,
            CalibrationTensorKind::Activation => self.activation_phase,
        }
    }

    /// A row of this shape is sampled.
    pub open spec fn samples_row(self, rows: usize) -> bool {
        self.activation_phase == CalibrationPhase::Decode && self.decode_sample_limit > 0 && rows
            == 1
    }
}

/// What sampling one observation does: `before` becomes `after`, with result `r`.
pub open spec fn row_sampled(
    before: CollectorView,
    name: Seq<char>,
    feature_size: usize,
    rows: usize,
    values: Seq<Bf16>,
    after: CollectorView,
    r: Result<(), CalibrationError>,
) -> bool {
    let limit = before.decode_sample_limit as int;
    if !before.samples_row(rows) {
        r is Ok && after == before
    } else {
        exists|index: int|
            {
                &&& #[trigger] before.is_samples_index(name, index)
                &&& if index == before.samples.len() {
                    r is Ok && after == (CollectorView {
                        samples: before.samples.push(
                            SamplesView::empty(name, feature_size).with_row(values, limit),
                        ),
                        ..before
                    })
                } else if before.samples[index].feature_size == feature_size {
                    r is Ok && after == (CollectorView {
                        samples: before.samples.update(
                            index,
                            before.samples[index].with_row(values, limit),
                        ),
                        ..before
                    })
                } else {
                    r == Err::<(), CalibrationError>(CalibrationError::SampleFeatureSizeChanged)
                        && after == before
                }
            }
    }
}

/// What adding one observation to the statistics does: `before` becomes `after`, with
/// result `r`.
pub open spec fn observation_recorded(
    before: CollectorView,
    name: Seq<char>,
    kind: CalibrationTensorKind,
    feature_size: usize,
    rows: usize,
    values: Seq<Bf16>,
    after: CollectorView,
    r: Result<(), CalibrationError>,
) -> bool {
    let phase = before.phase_of(kind);
    exists|index: int|
        {
            &&& #[trigger] before.is_entry_index(before.phase_of(kind), name, index)
            &&& if index == before.entries.len() {
                r is Ok && after == (CollectorView {
                    entries: before.entries.push(
                        EntryView {
                            phase,
                            name,
                            statistics: StatisticsView::fresh(kind, feature_size, rows).observed(
                                values,
                                rows,
                            ),
                        },
                    ),
                    ..before
                })
            } else if before.entries[index].statistics.feature_size != feature_size {
                r == Err::<(), CalibrationError>(
                    CalibrationError::FeatureSizeChanged {
                        before: before.entries[index].statistics.feature_size,
                        now: feature_size,
                    },
                ) && after == before
            } else {
                r is Ok && after == (CollectorView {
                    entries: before.entries.update(
                        index,
                        EntryView {
                            statistics: before.entries[index].statistics.observed(values, rows),
                            ..before.entries[index]
                        },
                    ),
                    ..before
                })
            }
        }
}

impl CalibrationCollector {
    pub fn new(decode_sample_limit: usize) -> (r: Self)
        ensures
            r@ == (CollectorView {
                entries: Seq::empty(),
                activation_phase: CalibrationPhase::Prefill,
                decode_sample_limit,
                samples: Seq::empty(),
                sequences: 0,
                tokens: 0,
                min_sequence_tokens: usize::MAX,
                max_sequence_tokens: 0,
                prefill_forward_calls: 0,
                decode_forward_calls: 0,
                min_decode_context: usize::MAX,
                max_decode_context: 0,
            }),
            r@.well_formed(),
    {
        let r = CalibrationCollector {
            entries: Vec::new(),
            activation_phase: CalibrationPhase::Prefill,
            decode_sample_limit,
            samples: Vec::new(),
            sequences: 0,
            tokens: 0,
            min_sequence_tokens: usize::MAX,
            max_sequence_tokens: 0,
            prefill_forward_calls: 0,
            decode_forward_calls: 0,
            min_decode_context: usize::MAX,
            max_decode_context: 0,
        };
        assert(r@.entries =~= Seq::<EntryView>::empty());
        assert(r@.samples =~= Seq::<SamplesView>::empty());
        r
    }

    pub fn set_activation_phase(&mut self, phase: CalibrationPhase) -> (r: Result<
        (),
        CalibrationError,
    >)
        ensures
            match r {
                Ok(()) => phase != CalibrationPhase::Weight && final(self)@ == (CollectorView {
                    activation_phase: phase,
                    ..old(self)@
                }),
                Err(e) => phase == CalibrationPhase::Weight && e == CalibrationError::WeightPhase
                    && *final(self) == *old(self),
            },
    {
        if phase == CalibrationPhase::Weight {
            return Err(CalibrationError::WeightPhase);
        }
        self.activation_phase = phase;
        Ok(())
    }

    /// Takes in the last row of an activation.
    pub fn observe_last_row(&mut self, name: &str, feature_size: usize, values: &[Bf16]) -> (r:
        Result<(), CalibrationError>)
        requires
            old(self)@.well_formed(),
            values@.len() == feature_size,
        ensures
            final(self)@.well_formed(),
            exists|between: CollectorView, sampling: Result<(), CalibrationError>|
                {
                    &&& #[trigger] row_sampled(
                        old(self)@,
                        name@,
                        feature_size,
                        1,
                        values@,
                        between,
                        sampling,
                    )
                    &&& match sampling {
                        Ok(()) => observation_recorded(
                            between,
                            name@,
                            CalibrationTensorKind::Activation,
                            feature_size,
                            1,
                            values@,
                            final(self)@,
                            r,
                        ),
                        Err(e) => r == Err::<(), CalibrationError>(e) && final(self)@ == between,
                    }
                },
    {
        self.observe(name, CalibrationTensorKind::Activation, feature_size, 1, values)
    }

    fn entry_index(&self, phase: CalibrationPhase, name: &str) -> (r: usize)
        ensures
            self@.is_entry_index(phase, name@, r as int),
    {
        let mut index: usize = 0;
        while index < self.entries.len()
            invariant
                index <= self.entries@.len(),
                forall|i: int|
                    0 <= i < index ==> !entry_matches(#[trigger] self@.entries[i], phase, name@),
            decreases self.entries@.len() - index,
        {
            if self.entries[index].phase == phase && text_eq(
                self.entries[index].name.as_str(),
                name,
            ) {
                return index;
            }
            index = index + 1;
        }
        index
    }

    fn samples_index(&self, name: &str) -> (r: usize)
        ensures
            self@.is_samples_index(name@, r as int),
    {
        let mut index: usize = 0;
        while index < self.samples.len()
            invariant
                index <= self.samples@.len(),
                forall|i: int| 0 <= i < index ==> (#[trigger] self@.samples[i]).name != name@,
            decreases self.samples@.len() - index,
        {
            if text_eq(self.samples[index].name.as_str(), name) {
                return index;
            }
            index = index + 1;
        }
        index
    }

    /// Samples a single decode row of a site, if decode rows are being sampled.
    pub fn maybe_store_decode_sample(
        &mut self,
        name: &str,
        feature_size: usize,
        rows: usize,
        values: &[Bf16],
    ) -> (r: Result<(), CalibrationError>)
        requires
            old(self)@.well_formed(),
            rows == 1 ==> values@.len() == feature_size,
        ensures
            final(self)@.well_formed(),
            row_sampled(old(self)@, name@, feature_size, rows, values@, final(self)@, r),
    {
        if self.activation_phase != CalibrationPhase::Decode || self.decode_sample_limit == 0
            || rows != 1 {
            return Ok(());
        }
        let ghost before = self@;
        let limit: usize = self.decode_sample_limit;
        let index: usize = self.samples_index(name);
        assert(before.is_samples_index(name@, index as int));
        if index == self.samples.len() {
            let mut set = ActivationSamples {
                name: name.to_owned(),
                feature_size,
                rows: 0,
                seen: 0,
                values: Vec::new(),
            };
            proof {
                assert(set@ =~= SamplesView::empty(name@, feature_size));
                assert(0 * feature_size == 0) by (nonlinear_arith);
            }
            set.add_row(values, limit);
            self.samples.push(set);
            assert(self@.samples =~= before.samples.push(set@));
            assert(self@.entries =~= before.entries);
            return Ok(());
        }
        if self.samples[index].feature_size != feature_size {
            return Err(CalibrationError::SampleFeatureSizeChanged);
        }
        assert(before.samples[index as int].well_formed(limit as int));
        self.samples[index].add_row(values, limit);
        proof {
            assert(self@.samples =~= before.samples.update(
                index as int,
                before.samples[index as int].with_row(values@, limit as int),
            ));
            assert(self@.entries =~= before.entries);
        }
        Ok(())
    }

    /// Takes in an observation of a site: samples it, then adds it to the statistics of its
    /// phase. Weights have a phase of their own; activations are in the current one.
    pub fn observe(
        &mut self,
        name: &str,
        kind: CalibrationTensorKind,
        feature_size: usize,
        rows: usize,
        values: &[Bf16],
    ) -> (r: Result<(), CalibrationError>)
        requires
            old(self)@.well_formed(),
            rows == 1 ==> values@.len() == feature_size,
        ensures
            final(self)@.well_formed(),
            exists|between: CollectorView, sampling: Result<(), CalibrationError>|
                {
                    &&& #[trigger] row_sampled(
                        old(self)@,
                        name@,
                        feature_size,
                        rows,
                        values@,
                        between,
                        sampling,
                    )
                    &&& match sampling {
                        Ok(()) => observation_recorded(
                            between,
                            name@,
                            kind,
                            feature_size,
                            rows,
                            values@,
                            final(self)@,
                            r,
                        ),
                        Err(e) => r == Err::<(), CalibrationError>(e) && final(self)@ == between,
                    }
                },
    {
        let sampling = self.maybe_store_decode_sample(name, feature_size, rows, values);
        assert(row_sampled(old(self)@, name@, feature_size, rows, values@, self@, sampling));
        match sampling {
            Ok(()) => self.record_observation(name, kind, feature_size, rows, values),
            Err(e) => Err(e),
        }
    }

    fn record_observation(
        &mut self,
        name: &str,
        kind: CalibrationTensorKind,
        feature_size: usize,
        rows: usize,
        values: &[Bf16],
    ) -> (r: Result<(), CalibrationError>)
        requires
            old(self)@.well_formed(),
        ensures
            final(self)@.well_formed(),
            observation_recorded(
                old(self)@,
                name@,
                kind,
                feature_size,
                rows,
                values@,
                final(self)@,
                r,
            ),
    {
        let phase = if kind == CalibrationTensorKind::Weight {
            CalibrationPhase::Weight
        } else {
            self.activation_phase
        };
        let ghost before = self@;
        let index: usize = self.entry_index(phase, name);
        assert(phase == before.phase_of(kind));
        assert(before.is_entry_index(before.phase_of(kind), name@, index as int));
        if index == self.entries.len() {
            let mut statistics = TensorStatistics::new(kind, feature_size, rows);
            match statistics.observe(values, feature_size, rows) {
                Ok(()) => {},
                Err(e) => {
                    return Err(e);
                },
            }
            self.entries.push(CalibrationEntry { phase, name: name.to_owned(), statistics });
            proof {
                let added = EntryView { phase, name: name@, statistics: statistics@ };
                assert(self@.entries =~= before.entries.push(added));
                assert(self@.samples =~= before.samples);
            }
            return Ok(());
        }
        assert(before.entries[index as int] == self.entries@[index as int]@);
        let result = self.entries[index].statistics.observe(values, feature_size, rows);
        proof {
            assert(self@.samples =~= before.samples);
            assert(self@.entries =~= before.entries.update(
                index as int,
                EntryView {
                    statistics: self.entries@[index as int].statistics@,
                    ..before.entries[index as int]
                },
            ));
            if result is Err {
                assert(self@.entries =~= before.entries);
                assert(self@ =~= before);
            } else {
                assert(self@ =~= (CollectorView {
                    entries: before.entries.update(
                        index as int,
                        EntryView {
                            statistics: before.entries[index as int].statistics.observed(
                                values@,
                                rows,
                            ),
                            ..before.entries[index as int]
                        },
                    ),
                    ..before
                }));
            }
        }
        result
    }

    pub fn record_sequence(&mut self, tokens: usize) -> (r: Result<(), CalibrationError>)
        ensures
            match r {
                Ok(()) => {
                    &&& tokens > 0
                    &&& old(self)@.tokens + tokens <= usize::MAX
                    &&& final(self)@ == (CollectorView {
                        sequences: old(self)@.sequences.saturating_add(1),
                        tokens: (old(self)@.tokens + tokens) as usize,
                        min_sequence_tokens: min_int(
                            old(self)@.min_sequence_tokens as int,
                            tokens as int,
                        ) as usize,
                        max_sequence_tokens: max_int(
                            old(self)@.max_sequence_tokens as int,
                            tokens as int,
                        ) as usize,
                        ..old(self)@
                    })
                },
                Err(CalibrationError::EmptySequence) => tokens == 0 && *final(self) == *old(self),
                Err(e) => tokens > 0 && e == CalibrationError::TokenCountOverflow && old(
                    self,
                )@.tokens + tokens > usize::MAX && final(self)@ == (CollectorView {
                    sequences: old(self)@.sequences.saturating_add(1),
                    ..old(self)@
                }),
            },
    {
        if tokens == 0 {
            return Err(CalibrationError::EmptySequence);
        }
        self.sequences = self.sequences.saturating_add(1);
        assert(self@.entries =~= old(self)@.entries);
        assert(self@.samples =~= old(self)@.samples);
        self.tokens =
        match self.tokens.checked_add(tokens) {
            Some(total) => total,
            None => {
                return Err(CalibrationError::TokenCountOverflow);
            },
        };
        self.min_sequence_tokens = min_usize(self.min_sequence_tokens, tokens);
        self.max_sequence_tokens = max_usize(self.max_sequence_tokens, tokens);
        Ok(())
    }

    pub fn sequence_count(&self) -> (r: usize)
        ensures
            r == self@.sequences,
    {
        self.sequences
    }

    pub fn record_prefill_forward(&mut self)
        ensures
            final(self)@ == (CollectorView {
                prefill_forward_calls: old(self)@.prefill_forward_calls.saturating_add(1),
                ..old(self)@
            }),
    {
        self.prefill_forward_calls = self.prefill_forward_calls.saturating_add(1);
    }

    pub fn record_decode_forward(&mut self, context: usize) -> (r: Result<(), CalibrationError>)
        ensures
            match r {
                Ok(()) => context > 0 && final(self)@ == (CollectorView {
                    decode_forward_calls: old(self)@.decode_forward_calls.saturating_add(1),
                    min_decode_context: min_int(
                        old(self)@.min_decode_context as int,
                        context as int,
                    ) as usize,
                    max_decode_context: max_int(
                        old(self)@.max_decode_context as int,
                        context as int,
                    ) as usize,
                    ..old(self)@
                }),
                Err(e) => context == 0 && e == CalibrationError::EmptyContext && *final(self)
                    == *old(self),
            },
    {
        if context == 0 {
            return Err(CalibrationError::EmptyContext);
        }
        self.decode_forward_calls = self.decode_forward_calls.saturating_add(1);
        self.min_decode_context = min_usize(self.min_decode_context, context);
        self.max_decode_context = max_usize(self.max_decode_context, context);
        Ok(())
    }

    /// The statistics of a site in a phase.
    pub fn statistics_of(&self, phase: CalibrationPhase, name: &str) -> (r: Option<&TensorStatistics>)
        ensures
            match r {
                Some(statistics) => exists|index: int|
                    0 <= index < self@.entries.len() && entry_matches(
                        #[trigger] self@.entries[index],
                        phase,
                        name@,
                    ) && statistics@ == self@.entries[index].statistics,
                None => forall|i: int|
                    0 <= i < self@.entries.len() ==> !entry_matches(
                        #[trigger] self@.entries[i],
                        phase,
                        name@,
                    ),
            },
    {
        let index: usize = self.entry_index(phase, name);
        if index < self.entries.len() {
            assert(entry_matches(self@.entries[index as int], phase, name@));
            Some(&self.entries[index].statistics)
        } else {
            None
        }
    }

    /// The sampled decode rows of a site.
    pub fn decode_samples(&self, name: &str) -> (r: Option<&ActivationSamples>)
        ensures
            match r {
                Some(samples) => exists|index: int|
                    0 <= index < self@.samples.len() && (#[trigger] self@.samples[index]).name
                        == name@ && samples@ == self@.samples[index],
                None => forall|i: int|
                    0 <= i < self@.samples.len() ==> (#[trigger] self@.samples[i]).name != name@,
            },
    {
        let index: usize = self.samples_index(name);
        if index < self.samples.len() {
            assert(self@.samples[index as int].name == name@);
            Some(&self.samples[index])
        } else {
            None
        }
    }
}

/// How many of the first `upto` entries are in a phase.
pub open spec fn phase_sites(entries: Seq<EntryView>, phase: CalibrationPhase, upto: int) -> int
    decreases upto,
{
    if upto <= 0 {
        0
    } else {
        phase_sites(entries, phase, upto - 1) + if entries[upto - 1].phase == phase {
            1int
        } else {
            0int
        }
    }
}

/// What keeps a calibration from being complete.
pub open spec fn incompleteness(collector: CollectorView) -> Option<CalibrationError> {
    let n = collector.entries.len() as int;
    let weight = phase_sites(collector.entries, CalibrationPhase::Weight, n);
    let prefill = phase_sites(collector.entries, CalibrationPhase::Prefill, n);
    let decode = phase_sites(collector.entries, CalibrationPhase::Decode, n);
    if collector.sequences == 0 {
        Some(CalibrationError::NoSequences)
    } else if collector.prefill_forward_calls != collector.sequences {
        Some(
            CalibrationError::PrefillCount {
                prefills: collector.prefill_forward_calls,
                sequences: collector.sequences,
            },
        )
    } else if collector.decode_forward_calls == 0 {
        Some(CalibrationError::NoDecodeObservations)
    } else if weight != 77 {
        Some(
            CalibrationError::SiteCount {
                phase: CalibrationPhase::Weight,
                observed: weight as usize,
            },
        )
    } else if prefill != 65 {
        Some(
            CalibrationError::SiteCount {
                phase: CalibrationPhase::Prefill,
                observed: prefill as usize,
            },
        )
    } else if decode != 65 {
        Some(
            CalibrationError::SiteCount {
                phase: CalibrationPhase::Decode,
                observed: decode as usize,
            },
        )
    } else {
        None
    }
}

/// Entry `a` is reported before entry `b`: by phase, then by name.
pub open spec fn reported_before(a: EntryView, b: EntryView) -> bool {
    a.phase.rank() < b.phase.rank() || (a.phase == b.phase && text_before(a.name, b.name))
}

/// `order` holds every entry once, in the order of the report.
pub open spec fn is_report_order(entries: Seq<EntryView>, order: Seq<usize>) -> bool {
    &&& order.len() == entries.len()
    &&& forall|i: int| 0 <= i < order.len() ==> #[trigger] order[i] < entries.len()
    &&& forall|i: int, j: int|
        0 <= i < j < order.len() ==> !reported_before(
            entries[#[trigger] order[j] as int],
            entries[#[trigger] order[i] as int],
        )
    &&& forall|p: int|
        0 <= p < entries.len() ==> #[trigger] crate::order::ranks_somewhere(order, p)
}

impl CalibrationCollector {
    fn count_phase(&self, phase: CalibrationPhase) -> (r: usize)
        ensures
            r == phase_sites(self@.entries, phase, self@.entries.len() as int),
    {
        let mut count: usize = 0;
        let mut index: usize = 0;
        while index < self.entries.len()
            invariant
                index <= self.entries@.len(),
                count <= index,
                count == phase_sites(self@.entries, phase, index as int),
            decreases self.entries@.len() - index,
        {
            if self.entries[index].phase == phase {
                count = count + 1;
            }
            index = index + 1;
        }
        count
    }

    fn entry_before(&self, a: usize, b: usize) -> (r: bool)
        requires
            a < self@.entries.len(),
            b < self@.entries.len(),
        ensures
            r == reported_before(self@.entries[a as int], self@.entries[b as int]),
    {
        let left = &self.entries[a];
        let right = &self.entries[b];
        let x: u8 = left.phase.place();
        let y: u8 = right.phase.place();
        x < y || (x == y && text_precedes(left.name.as_str(), right.name.as_str()))
    }

    /// Checks that the calibration is complete and puts its sites in the order of the report.
    pub fn finish(&self) -> (r: Result<Vec<usize>, CalibrationError>)
        requires
            self@.well_formed(),
        ensures
            match r {
                Ok(order) => incompleteness(self@) is None && is_report_order(
                    self@.entries,
                    order@,
                ),
                Err(e) => incompleteness(self@) == Some(e),
            },
    {
        if self.sequences == 0 {
            return Err(CalibrationError::NoSequences);
        }
        if self.prefill_forward_calls != self.sequences {
            return Err(
                CalibrationError::PrefillCount {
                    prefills: self.prefill_forward_calls,
                    sequences: self.sequences,
                },
            );
        }
        if self.decode_forward_calls == 0 {
            return Err(CalibrationError::NoDecodeObservations);
        }
        let weight: usize = self.count_phase(CalibrationPhase::Weight);
        if weight != 77 {
            return Err(
                CalibrationError::SiteCount { phase: CalibrationPhase::Weight, observed: weight },
            );
        }
        let prefill: usize = self.count_phase(CalibrationPhase::Prefill);
        if prefill != 65 {
            return Err(
                CalibrationError::SiteCount { phase: CalibrationPhase::Prefill, observed: prefill },
            );
        }
        let decode: usize = self.count_phase(CalibrationPhase::Decode);
        if decode != 65 {
            return Err(
                CalibrationError::SiteCount { phase: CalibrationPhase::Decode, observed: decode },
            );
        }
        Ok(self.report_order())
    }

    fn report_order(&self) -> (r: Vec<usize>)
        ensures
            is_report_order(self@.entries, r@),
    {
        let mut order: Vec<usize> = Vec::new();
        let mut next: usize = 0;
        while next < self.entries.len()
            invariant
                next <= self@.entries.len(),
                is_report_order(self@.entries.take(next as int), order@),
            decreases self@.entries.len() - next,
        {
            let ghost sofar = self@.entries.take(next as int);
            let ghost upto = self@.entries.take(next + 1);
            let ghost before = order@;
            let mut place: usize = order.len();
            while place > 0 && self.entry_before(next, order[place - 1])
                invariant
                    place <= order@.len(),
                    next < self@.entries.len(),
                    sofar == self@.entries.take(next as int),
                    order@ == before,
                    is_report_order(sofar, order@),
                    forall|i: int|
                        place <= i < order@.len() ==> reported_before(
                            self@.entries[next as int],
                            self@.entries[#[trigger] order@[i] as int],
                        ),
                decreases place,
            {
                place = place - 1;
            }
            order.insert(place, next);
            proof {
                assert(upto.take(next as int) =~= sofar);
                assert forall|i: int| 0 <= i < before.len() implies (#[trigger] before[i])
                    < sofar.len() && upto[before[i] as int] == sofar[before[i] as int] by {}
                assert forall|i: int, j: int| 0 <= i < j < order@.len() implies !reported_before(
                    upto[#[trigger] order@[j] as int],
                    upto[#[trigger] order@[i] as int],
                ) by {
                    lemma_insertion_keeps_order(
                        sofar,
                        upto,
                        before,
                        order@,
                        place as int,
                        next as int,
                        i,
                        j,
                    );
                }
                assert forall|p: int| 0 <= p < upto.len() implies #[trigger]
                crate::order::ranks_somewhere(order@, p) by {
                    if p == next {
                        assert(order@[place as int] == p);
                    } else {
                        assert(crate::order::ranks_somewhere(before, p));
                        let i = choose|i: int| 0 <= i < before.len() && #[trigger] before[i] == p;
                        if i < place {
                            assert(order@[i] == p);
                        } else {
                            assert(order@[i + 1] == p);
                        }
                    }
                }
            }
            next = next + 1;
        }
        assert(self@.entries.take(next as int) =~= self@.entries);
        order
    }
}

proof fn lemma_report_order_is_asymmetric(a: EntryView, b: EntryView)
    requires
        reported_before(a, b),
    ensures
        !reported_before(b, a),
{
    crate::order::text_order_is_total(a.name, b.name);
}

proof fn lemma_insertion_keeps_order(
    sofar: Seq<EntryView>,
    upto: Seq<EntryView>,
    before: Seq<usize>,
    after: Seq<usize>,
    place: int,
    next: int,
    i: int,
    j: int,
)
    requires
        is_report_order(sofar, before),
        sofar.len() == next,
        upto.len() == next + 1,
        upto.take(next) == sofar,
        0 <= place <= before.len(),
        after == before.insert(place, next as usize),
        0 <= next <= usize::MAX,
        forall|k: int|
            place <= k < before.len() ==> reported_before(
                upto[next],
                upto[#[trigger] before[k] as int],
            ),
        place > 0 ==> !reported_before(upto[next], upto[before[place - 1] as int]),
        0 <= i < j < after.len(),
    ensures
        !reported_before(upto[after[j] as int], upto[after[i] as int]),
{
    assert forall|k: int| 0 <= k < before.len() implies upto[#[trigger] before[k] as int]
        == sofar[before[k] as int] by {
        assert(upto.take(next)[before[k] as int] == upto[before[k] as int]);
    }
    if i < place && j < place {
        assert(after[i] == before[i] && after[j] == before[j]);
    } else if i < place && j == place {
        assert(after[i] == before[i] && after[j] == next);
        if i < place - 1 {
            if reported_before(upto[next], upto[before[i] as int]) {
                lemma_transitive_gap(
                    upto[next],
                    upto[before[i] as int],
                    upto[before[place - 1] as int],
                );
            }
        }
    } else if i < place {
        assert(after[i] == before[i] && after[j] == before[j - 1]);
    } else if i == place {
        assert(after[i] == next && after[j] == before[j - 1]);
        lemma_report_order_is_asymmetric(upto[next], upto[before[j - 1] as int]);
    } else {
        assert(after[i] == before[i - 1] && after[j] == before[j - 1]);
    }
}

/// If `a` comes before `b`, and `c` does not come before `b`, then `a` comes before `c`.
proof fn lemma_transitive_gap(a: EntryView, b: EntryView, c: EntryView)
    requires
        reported_before(a, b),
        !reported_before(c, b),
    ensures
        reported_before(a, c),
{
    if a.phase == b.phase && b.phase == c.phase {
        lemma_text_gap(a.name, b.name, c.name);
    }
}

proof fn lemma_text_gap(a: Seq<char>, b: Seq<char>, c: Seq<char>)
    requires
        text_before(a, b),
        !text_before(c, b),
    ensures
        text_before(a, c),
    decreases a.len(),
{
    if a.len() > 0 && b.len() > 0 && c.len() > 0 && a[0] == b[0] && b[0] == c[0] {
        lemma_text_gap(a.skip(1), b.skip(1), c.skip(1));
    }
}

/// A tensor as the outlier list reads it: what it is, and its largest magnitude relative to
/// its 99.99th percentile where that is defined.
#[derive(Clone, Copy, Debug, PartialEq, Eq, Structural)]
pub struct OutlierCandidate {
    pub kind: CalibrationTensorKind,
    pub amax_over_p99_99: Option<F32>,
}

impl OutlierCandidate {
    pub open spec fn ratio(self) -> F32 {
        match self.amax_over_p99_99 {
            Some(ratio) => ratio,
            None => F32 { bits: 0 },
        }
    }
}

/// The positions of the activations among the first `upto` tensors.
pub open spec fn activation_positions(tensors: Seq<OutlierCandidate>, upto: int) -> Seq<usize>
    decreases upto,
{
    if upto <= 0 {
        Seq::empty()
    } else if tensors[upto - 1].kind == CalibrationTensorKind::Activation {
        activation_positions(tensors, upto - 1).push((upto - 1) as usize)
    } else {
        activation_positions(tensors, upto - 1)
    }
}

/// The keys by which the listed tensors are ranked.
pub open spec fn outlier_keys(tensors: Seq<OutlierCandidate>, positions: Seq<usize>) -> Seq<i64> {
    Seq::new(
        positions.len(),
        |i: int| tensors[positions[i] as int].ratio().total_order() as i64,
    )
}

/// The activations with the largest outliers, at most `limit` of them, largest first.
pub fn activation_outliers(tensors: &Vec<OutlierCandidate>, limit: usize) -> (r: Vec<usize>)
    ensures
        ({
            let positions = activation_positions(tensors@, tensors@.len() as int);
            exists|ranking: Seq<usize>|
                {
                    &&& #[trigger] is_ranking(outlier_keys(tensors@, positions), ranking)
                    &&& r@ == Seq::new(
                        min_int(limit as int, positions.len() as int) as nat,
                        |i: int| positions[ranking[i] as int],
                    )
                }
        }),
{
    let mut positions: Vec<usize> = Vec::new();
    let mut keys: Vec<i64> = Vec::new();
    let mut index: usize = 0;
    assert(outlier_keys(tensors@, positions@) =~= keys@);
    while index < tensors.len()
        invariant
            index <= tensors@.len(),
            positions@ == activation_positions(tensors@, index as int),
            keys@ == outlier_keys(tensors@, positions@),
            forall|i: int| 0 <= i < positions@.len() ==> #[trigger] positions@[i] < tensors@.len(),
        decreases tensors@.len() - index,
    {
        if tensors[index].kind == CalibrationTensorKind::Activation {
            let ratio: F32 = match tensors[index].amax_over_p99_99 {
                Some(ratio) => ratio,
                None => F32 { bits: 0 },
            };
            positions.push(index);
            keys.push(ratio.total_order_key());
            assert(keys@ =~= outlier_keys(tensors@, positions@));
        }
        index = index + 1;
    }
    let ranking = rank_descending(&keys);
    let kept: usize = min_usize(limit, positions.len());
    let mut r: Vec<usize> = Vec::new();
    let mut taken: usize = 0;
    while taken < kept
        invariant
            taken <= kept <= ranking@.len(),
            ranking@.len() == positions@.len(),
            is_ranking(keys@, ranking@),
            keys@.len() == positions@.len(),
            r@ == Seq::new(taken as nat, |i: int| positions@[ranking@[i] as int]),
        decreases kept - taken,
    {
        r.push(positions[ranking[taken]]);
        taken = taken + 1;
        assert(r@ =~= Seq::new(taken as nat, |i: int| positions@[ranking@[i] as int]));
    }
    r
}

} // verus!
