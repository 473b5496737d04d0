//! What calibration and evaluation count, value by value.
use vstd::prelude::*;

use crate::bf16::Bf16;
use crate::float::F32;
use crate::model::calibration::{
    activation_outliers, activation_positions, calibration_rows, last_row_range, total,
    CalibrationCollector, CalibrationError, CalibrationPhase, CalibrationTensorKind,
    CollectorView, EntryView, OutlierCandidate, RowRange, StatisticsView, TensorStatistics,
};
use crate::model::evaluation::{
    counters_of, has_point, is_comparable, overlap, row_of, top_indices, EvaluationError, HiddenCapture,
    LogitMetricAccumulator, LogitStep, PointCounters, PointView, PropagationAccumulator,
};
use crate::model::fp8_analysis::{
    compare_outputs, finite_positions, AnalysisError, ComparedOutputs,
};

verus! {

/// Brain floats are told apart as other floats are: those with the largest exponent are not
/// finite, and of these the ones with a fraction are no numbers.
pub proof fn brain_floats_are_told_apart(value: Bf16)
    ensures
        value.finite() <==> (value.bits % 0x8000) / 0x80 != 0xff,
        value.nan() <==> (value.bits % 0x8000) / 0x80 == 0xff && value.bits % 0x80 != 0,
        value.magnitude() == value.bits % 0x8000,
{
}

/// How many of the first `upto` values are finite and have a magnitude.
pub open spec fn values_of(values: Seq<Bf16>, magnitude: int, upto: int) -> int
    decreases upto,
{
    if upto <= 0 {
        0
    } else {
        values_of(values, magnitude, upto - 1) + if values[upto - 1].bits % 0x8000 == magnitude {
            1int
        } else {
            0int
        }
    }
}

/// How many of the first `upto` values are not finite.
pub open spec fn values_lost(values: Seq<Bf16>, upto: int) -> int
    decreases upto,
{
    if upto <= 0 {
        0
    } else {
        values_lost(values, upto - 1) + if values[upto - 1].bits % 0x8000 >= 0x7f80 {
            1int
        } else {
            0int
        }
    }
}

/// What contracts say of statistics is what they hold.
pub proof fn statistics_show_their_fields(statistics: &TensorStatistics)
    ensures
        statistics@.kind == statistics.kind,
        statistics@.feature_size == statistics.feature_size,
        statistics@.min_rows == statistics.min_rows,
        statistics@.max_rows == statistics.max_rows,
        statistics@.observations == statistics.observations,
        statistics@.finite_values == statistics.finite_values,
        statistics@.non_finite_values == statistics.non_finite_values,
        statistics@.zeros == statistics.zeros,
        statistics@.amax == statistics.amax,
        statistics@.histogram == statistics.histogram@,
{
}

proof fn lemma_values_counted(before: StatisticsView, values: Seq<Bf16>, upto: int, magnitude: int)
    requires
        before.histogram.len() == 32768,
        0 <= upto <= values.len(),
        0 <= magnitude < 0x7f80,
        before.histogram[magnitude] + upto <= u64::MAX,
        before.finite_values + upto <= u64::MAX,
        before.non_finite_values + upto <= u64::MAX,
        before.zeros + upto <= u64::MAX,
        before.amax < 0x7f80,
    ensures
        ({
            let after = before.with_values(values, upto);
            let lost = values_lost(values, upto);
            &&& after.histogram.len() == 32768
            &&& after.histogram[magnitude] == before.histogram[magnitude] + values_of(
                values,
                magnitude,
                upto,
            )
            &&& 0 <= values_of(values, magnitude, upto) <= upto
            &&& after.finite_values == before.finite_values + upto - lost
            &&& after.non_finite_values == before.non_finite_values + lost
            &&& 0 <= lost <= upto
            &&& after.zeros == before.zeros + values_of(values, 0, upto)
            &&& 0 <= values_of(values, 0, upto) <= upto
            &&& after.amax >= before.amax
            &&& after.amax < 0x7f80
            &&& after.kind == before.kind
            &&& after.feature_size == before.feature_size
            &&& after.min_rows == before.min_rows
            &&& after.max_rows == before.max_rows
            &&& after.observations == before.observations
            &&& forall|i: int|
                0 <= i < upto && (#[trigger] values[i]).bits % 0x8000 < 0x7f80
                    ==> values[i].bits % 0x8000 <= after.amax
            &&& after.amax == before.amax || exists|i: int|
                0 <= i < upto && (#[trigger] values[i]).bits % 0x8000 == after.amax
        }),
    decreases upto,
{
    if upto > 0 {
        lemma_values_counted(before, values, upto - 1, magnitude);
        let last = before.with_values(values, upto - 1);
        let now = before.with_values(values, upto);
        let value = values[upto - 1];
        assert(now == last.with_value(value));
        brain_floats_are_told_apart(value);
        if now.amax != last.amax {
            assert(values[upto - 1].bits % 0x8000 == now.amax);
        }
    }
}

/// An observation enters every finite value under its magnitude and counts those that are not
/// finite. It keeps the largest magnitude, counts the zeros, and notes its rows. Rows of
/// another width are refused.
pub proof fn observations_enter_every_value(
    statistics: &mut TensorStatistics,
    values: &[Bf16],
    width: usize,
    rows: usize,
    r: Result<(), CalibrationError>,
    magnitude: int,
)
    requires
        call_ensures(TensorStatistics::observe, (statistics, values, width, rows), r),
        old(statistics).histogram@.len() == 32768,
        0 <= magnitude < 0x7f80,
        old(statistics).histogram@[magnitude] + values@.len() <= u64::MAX,
        old(statistics).finite_values + values@.len() <= u64::MAX,
        old(statistics).non_finite_values + values@.len() <= u64::MAX,
        old(statistics).zeros + values@.len() <= u64::MAX,
        old(statistics).observations < u64::MAX,
        old(statistics).amax < 0x7f80,
    ensures
        r is Ok <==> width == old(statistics).feature_size,
        r is Err ==> *final(statistics) == *old(statistics),
        r is Ok ==> {
            let was = *old(statistics);
            let now = *final(statistics);
            let n = values@.len() as int;
            let lost = values_lost(values@, n);
            &&& now.histogram@[magnitude] == was.histogram@[magnitude] + values_of(
                values@,
                magnitude,
                n,
            )
            &&& now.finite_values == was.finite_values + n - lost
            &&& now.non_finite_values == was.non_finite_values + lost
            &&& now.zeros == was.zeros + values_of(values@, 0, n)
            &&& now.observations == was.observations + 1
            &&& now.min_rows == (if rows < was.min_rows {
                rows
            } else {
                was.min_rows
            })
            &&& now.max_rows == (if rows > was.max_rows {
                rows
            } else {
                was.max_rows
            })
            &&& now.amax >= was.amax
            &&& forall|i: int|
                0 <= i < n && (#[trigger] values@[i]).bits % 0x8000 < 0x7f80
                    ==> values@[i].bits % 0x8000 <= now.amax
            &&& now.amax == was.amax || exists|i: int|
                0 <= i < n && (#[trigger] values@[i]).bits % 0x8000 == now.amax
            &&& now.kind == was.kind
            &&& now.feature_size == was.feature_size
        },
{
    if r is Ok {
        let was = old(statistics)@;
        let counted = StatisticsView {
            min_rows: crate::num::min_int(was.min_rows as int, rows as int) as usize,
            max_rows: crate::num::max_int(was.max_rows as int, rows as int) as usize,
            observations: was.observations.saturating_add(1),
            ..was
        };
        lemma_values_counted(counted, values@, values@.len() as int, magnitude);
    }
}

/// New statistics hold nothing.
pub proof fn new_statistics_hold_nothing(
    kind: CalibrationTensorKind,
    width: usize,
    rows: usize,
    r: TensorStatistics,
    bin: int,
)
    requires
        call_ensures(TensorStatistics::new, (kind, width, rows), r),
        0 <= bin < 32768,
    ensures
        r.kind == kind,
        r.feature_size == width,
        r.observations == 0,
        r.finite_values == 0,
        r.non_finite_values == 0,
        r.zeros == 0,
        r.amax == 0,
        r.histogram@.len() == 32768,
        r.histogram@[bin] == 0,
{
}

/// How many values lie in the first bins.
pub open spec fn held_below(histogram: Seq<u64>, bins: int) -> int
    decreases bins,
{
    if bins <= 0 {
        0
    } else {
        held_below(histogram, bins - 1) + histogram[bins - 1]
    }
}

proof fn lemma_held(histogram: Seq<u64>, bins: int)
    ensures
        total(histogram, bins) == held_below(histogram, bins),
    decreases bins,
{
    if bins > 0 {
        lemma_held(histogram, bins - 1);
    }
}

proof fn lemma_first_bin(histogram: Seq<u64>, target: int, bins: int) -> (bin: int)
    requires
        0 < target <= held_below(histogram, bins),
        0 <= bins <= histogram.len(),
    ensures
        0 <= bin < bins,
        held_below(histogram, bin) < target <= held_below(histogram, bin + 1),
    decreases bins,
{
    if bins <= 0 {
        0
    } else if held_below(histogram, bins - 1) >= target {
        lemma_first_bin(histogram, target, bins - 1)
    } else {
        bins - 1
    }
}

/// The magnitude of a rank is the first up to which so many values lie. A rank beyond all
/// values has the largest magnitude, and without values every rank has zero.
pub proof fn ranks_have_their_magnitude(statistics: &TensorStatistics, rank: u64, r: Bf16)
    requires
        call_ensures(TensorStatistics::percentile, (statistics, rank), r),
        statistics.histogram@.len() == 32768,
        rank > 0,
    ensures
        statistics.finite_values == 0 ==> r.bits == 0,
        statistics.finite_values > 0 && rank <= held_below(statistics.histogram@, 32768) ==> {
            &&& r.bits < 0x8000
            &&& held_below(statistics.histogram@, r.bits as int) < rank
            &&& held_below(statistics.histogram@, r.bits + 1) >= rank
        },
{
    let h = statistics.histogram@;
    if statistics.finite_values > 0 && rank <= held_below(h, 32768) {
        let bin = lemma_first_bin(h, rank as int, 32768);
        lemma_held(h, bin);
        lemma_held(h, bin + 1);
        assert(crate::model::calibration::is_rank_bin(h, rank as int, bin));
        assert(crate::model::calibration::is_rank_bin(
            statistics@.histogram,
            rank as int,
            r.bits as int,
        ));
        lemma_held(h, r.bits as int);
        lemma_held(h, r.bits + 1);
    }
}

/// Values above a threshold are those in the bins behind that of the threshold, rounded to
/// the nearest brain float.
pub proof fn values_above_are_counted(
    statistics: &TensorStatistics,
    threshold: F32,
    narrowed: Bf16,
    r: u64,
)
    requires
        call_ensures(TensorStatistics::count_above, (statistics, threshold), r),
        call_ensures(F32::narrow, (threshold,), narrowed),
        threshold.bits < 0x7f80_0000,
        statistics.finite_values > 0,
        held_below(statistics.histogram@, 32768) <= u64::MAX,
    ensures
        r == held_below(statistics.histogram@, 32768) - held_below(
            statistics.histogram@,
            narrowed.bits + 1,
        ),
{
    lemma_held(statistics.histogram@, 32768);
    lemma_held(statistics.histogram@, narrowed.bits + 1);
    lemma_held_grows(statistics.histogram@, 0, narrowed.bits + 1);
}

proof fn lemma_held_grows(histogram: Seq<u64>, a: int, b: int)
    requires
        0 <= a <= b,
    ensures
        0 <= held_below(histogram, a) <= held_below(histogram, b),
    decreases b,
{
    if a < b {
        lemma_held_grows(histogram, a, b - 1);
    } else if a > 0 {
        lemma_held_grows(histogram, a - 1, a - 1);
    }
}

/// The largest magnitude is the one that was kept.
pub proof fn the_largest_magnitude_is_kept(statistics: &TensorStatistics, r: Bf16)
    requires
        call_ensures(TensorStatistics::amax, (statistics,), r),
    ensures
        r.bits == statistics.amax,
{
}

/// Features are in the last dimension, and rows are all that is left.
pub proof fn rows_are_what_is_left(dims: &[usize], elements: usize, r: Result<
    (usize, usize),
    CalibrationError,
>)
    requires
        call_ensures(calibration_rows, (dims, elements), r),
    ensures
        r is Ok <==> dims@.len() > 0 && dims@.last() > 0,
        dims@.len() == 0 ==> r->Err_0 == CalibrationError::RankZero,
        r is Ok ==> r->Ok_0.0 == dims@.last(),
        r is Ok ==> r->Ok_0.1 * r->Ok_0.0 <= elements < (r->Ok_0.1 + 1) * r->Ok_0.0,
{
    if r is Ok {
        let f = dims@.last() as int;
        let e = elements as int;
        assert(0 <= e / f <= e && e / f * f <= e < (e / f + 1) * f) by (nonlinear_arith)
            requires
                f > 0,
                e >= 0,
        ;
    }
}

/// The last row of a matrix is as long as the matrix is wide, and ends where it ends.
pub proof fn last_rows_end_the_matrix(dims: &[usize], r: Result<RowRange, CalibrationError>)
    requires
        call_ensures(last_row_range, (dims,), r),
    ensures
        r is Ok ==> dims@.len() == 2 && dims@[0] > 0 && dims@[1] > 0,
        r is Ok ==> r->Ok_0.end == dims@[0] * dims@[1],
        r is Ok ==> r->Ok_0.start + dims@[1] == r->Ok_0.end,
        dims@.len() != 2 <==> r is Err && r->Err_0 == CalibrationError::NotRankTwo,
{
    if r is Ok {
        let a = dims@[0] as int;
        let b = dims@[1] as int;
        assert((a - 1) * b + b == a * b && 0 <= (a - 1) * b) by (nonlinear_arith)
            requires
                a > 0,
                b > 0,
        ;
    }
}

/// A collector starts in the prefill with nothing seen.
pub proof fn collectors_start_in_the_prefill(limit: usize, r: CalibrationCollector)
    requires
        call_ensures(CalibrationCollector::new, (limit,), r),
    ensures
        r.entries@.len() == 0,
        r.samples@.len() == 0,
        r.activation_phase == CalibrationPhase::Prefill,
        r.decode_sample_limit == limit,
        r.sequences == 0,
        r.tokens == 0,
        r.prefill_forward_calls == 0,
        r.decode_forward_calls == 0,
{
    assert(r@.entries.len() == r.entries@.len());
    assert(r@.samples.len() == r.samples@.len());
}

/// Activations are never in the phase of weights.
pub proof fn activations_have_a_phase(
    collector: &mut CalibrationCollector,
    phase: CalibrationPhase,
    r: Result<(), CalibrationError>,
)
    requires
        call_ensures(CalibrationCollector::set_activation_phase, (collector, phase), r),
    ensures
        r is Ok <==> phase != CalibrationPhase::Weight,
        r is Ok ==> final(collector).activation_phase == phase,
        r is Err ==> *final(collector) == *old(collector),
        final(collector)@.entries == old(collector)@.entries,
        final(collector)@.samples == old(collector)@.samples,
        final(collector).sequences == old(collector).sequences,
{
}

/// A sequence counts once, with its tokens, and stretches the shortest and the longest.
pub proof fn sequences_are_counted(
    collector: &mut CalibrationCollector,
    tokens: usize,
    r: Result<(), CalibrationError>,
)
    requires
        call_ensures(CalibrationCollector::record_sequence, (collector, tokens), r),
        old(collector).sequences < usize::MAX,
        old(collector).tokens + tokens <= usize::MAX,
    ensures
        r is Ok <==> tokens > 0,
        r is Err ==> r->Err_0 == CalibrationError::EmptySequence && *final(collector)
            == *old(collector),
        r is Ok ==> {
            let was = *old(collector);
            let now = *final(collector);
            &&& now.sequences == was.sequences + 1
            &&& now.tokens == was.tokens + tokens
            &&& now.min_sequence_tokens <= tokens <= now.max_sequence_tokens
            &&& now.min_sequence_tokens == tokens || now.min_sequence_tokens
                == was.min_sequence_tokens
            &&& now.min_sequence_tokens <= was.min_sequence_tokens
            &&& now.max_sequence_tokens == tokens || now.max_sequence_tokens
                == was.max_sequence_tokens
            &&& now.max_sequence_tokens >= was.max_sequence_tokens
            &&& now@.entries == was@.entries
            &&& now.prefill_forward_calls == was.prefill_forward_calls
            &&& now.decode_forward_calls == was.decode_forward_calls
        },
{
}

/// Passes count by their phase, and decodes stretch the shortest and the longest context.
pub proof fn passes_are_counted_by_phase(
    collector: &mut CalibrationCollector,
    other: &mut CalibrationCollector,
    context: usize,
    r: (),
    s: Result<(), CalibrationError>,
)
    requires
        call_ensures(CalibrationCollector::record_prefill_forward, (collector,), r),
        call_ensures(CalibrationCollector::record_decode_forward, (other, context), s),
        old(collector).prefill_forward_calls < usize::MAX,
        old(other).decode_forward_calls < usize::MAX,
    ensures
        final(collector).prefill_forward_calls == old(collector).prefill_forward_calls + 1,
        final(collector).decode_forward_calls == old(collector).decode_forward_calls,
        s is Ok <==> context > 0,
        s is Ok ==> {
            &&& final(other).decode_forward_calls == old(other).decode_forward_calls + 1
            &&& final(other).prefill_forward_calls == old(other).prefill_forward_calls
            &&& final(other).min_decode_context <= context <= final(other).max_decode_context
            &&& final(other).min_decode_context <= old(other).min_decode_context
            &&& final(other).max_decode_context >= old(other).max_decode_context
        },
{
}

/// An observation was entered at `at`, and what stood at `other` is as it was.
pub open spec fn is_entered(
    was: CollectorView,
    now: CollectorView,
    kind: CalibrationTensorKind,
    name: Seq<char>,
    width: usize,
    rows: usize,
    values: Seq<Bf16>,
    other: int,
    at: int,
) -> bool {
    let phase = if kind == CalibrationTensorKind::Weight {
        CalibrationPhase::Weight
    } else {
        was.activation_phase
    };
    &&& 0 <= at < now.entries.len()
    &&& now.entries[at].phase == phase
    &&& now.entries[at].name == name
    &&& now.entries[at].statistics.feature_size == width
    &&& at < was.entries.len() ==> now.entries.len() == was.entries.len()
        && was.entries[at].phase == phase && was.entries[at].name == name
        && now.entries[at].statistics == was.entries[at].statistics.observed(
        values,
        rows,
    )
    &&& at == was.entries.len() ==> now.entries.len() == was.entries.len() + 1 && !(
    was.entries[other].phase == phase && was.entries[other].name == name)
        && now.entries[at].statistics == StatisticsView::fresh(kind, width, rows).observed(
        values,
        rows,
    )
    &&& other != at ==> now.entries[other] == was.entries[other]
    &&& now.sequences == was.sequences
    &&& now.activation_phase == was.activation_phase
}

/// An observation goes to the statistics of its site and phase, and to no other: those of a
/// weight to the phase of weights, those of an activation to the current phase. A site that
/// was not seen before in that phase is entered behind the others.
pub proof fn observations_go_to_their_site(
    collector: &mut CalibrationCollector,
    name: &str,
    kind: CalibrationTensorKind,
    width: usize,
    rows: usize,
    values: &[Bf16],
    r: Result<(), CalibrationError>,
    other: int,
)
    requires
        call_ensures(
            CalibrationCollector::observe,
            (collector, name, kind, width, rows, values),
            r,
        ),
        r is Ok,
        0 <= other < old(collector)@.entries.len(),
    ensures
        exists|at: int| #[trigger]
            is_entered(
                old(collector)@,
                final(collector)@,
                kind,
                name@,
                width,
                rows,
                values@,
                other,
                at,
            ),
{
    let was = old(collector)@;
    let now = final(collector)@;
    let (between, sampling) = choose|between: CollectorView, sampling: Result<
        (),
        CalibrationError,
    >|
        {
            &&& #[trigger] crate::model::calibration::row_sampled(
                was,
                name@,
                width,
                rows,
                values@,
                between,
                sampling,
            )
            &&& match sampling {
                Ok(()) => crate::model::calibration::observation_recorded(
                    between,
                    name@,
                    kind,
                    width,
                    rows,
                    values@,
                    now,
                    r,
                ),
                Err(e) => r == Err::<(), CalibrationError>(e) && now == between,
            }
        };
    assert(between.entries == was.entries);
    assert(between.activation_phase == was.activation_phase);
    assert(between.sequences == was.sequences);
    let phase = between.phase_of(kind);
    let index = choose|index: int|
        {
            &&& #[trigger] between.is_entry_index(between.phase_of(kind), name@, index)
            &&& if index == between.entries.len() {
                r is Ok && now == (CollectorView {
                    entries: between.entries.push(
                        EntryView {
                            phase,
                            name: name@,
                            statistics: StatisticsView::fresh(kind, width, rows).observed(
                                values@,
                                rows,
                            ),
                        },
                    ),
                    ..between
                })
            } else if between.entries[index].statistics.feature_size != width {
                r == Err::<(), CalibrationError>(
                    CalibrationError::FeatureSizeChanged {
                        before: between.entries[index].statistics.feature_size,
                        now: width,
                    },
                ) && now == between
            } else {
                r is Ok && now == (CollectorView {
                    entries: between.entries.update(
                        index,
                        EntryView {
                            statistics: between.entries[index].statistics.observed(values@, rows),
                            ..between.entries[index]
                        },
                    ),
                    ..between
                })
            }
        };
    lemma_width_stays(between.entries[index].statistics, values@, rows);
    lemma_width_stays(StatisticsView::fresh(kind, width, rows), values@, rows);
    assert(is_entered(was, now, kind, name@, width, rows, values@, other, index));
}

proof fn lemma_width_stays(statistics: StatisticsView, values: Seq<Bf16>, rows: usize)
    ensures
        statistics.observed(values, rows).feature_size == statistics.feature_size,
{
    let counted = StatisticsView {
        min_rows: crate::num::min_int(statistics.min_rows as int, rows as int) as usize,
        max_rows: crate::num::max_int(statistics.max_rows as int, rows as int) as usize,
        observations: statistics.observations.saturating_add(1),
        ..statistics
    };
    lemma_width_kept(counted, values, values.len() as int);
}

proof fn lemma_width_kept(statistics: StatisticsView, values: Seq<Bf16>, upto: int)
    ensures
        statistics.with_values(values, upto).feature_size == statistics.feature_size,
    decreases upto,
{
    if upto > 0 {
        lemma_width_kept(statistics, values, upto - 1);
    }
}

/// How many of the first `upto` entries are of a phase.
pub open spec fn sites_in(entries: Seq<EntryView>, phase: CalibrationPhase, upto: int) -> int
    decreases upto,
{
    if upto <= 0 {
        0
    } else {
        sites_in(entries, phase, upto - 1) + if entries[upto - 1].phase == phase {
            1int
        } else {
            0int
        }
    }
}

proof fn lemma_sites_in(entries: Seq<EntryView>, phase: CalibrationPhase, upto: int)
    ensures
        crate::model::calibration::phase_sites(entries, phase, upto) == sites_in(
            entries,
            phase,
            upto,
        ),
    decreases upto,
{
    if upto > 0 {
        lemma_sites_in(entries, phase, upto - 1);
    }
}

/// A calibration is complete if it saw a sequence, one prefill for each, a decode, and every
/// site of the model: 77 weights, and 65 activations in each phase. Then every site is
/// reported once, weights before prefill before decode.
pub proof fn complete_calibrations_report_every_site(
    collector: &CalibrationCollector,
    r: Result<Vec<usize>, CalibrationError>,
    i: int,
    j: int,
    site: int,
)
    requires
        call_ensures(CalibrationCollector::finish, (collector,), r),
    ensures
        ({
            let entries = collector@.entries;
            let n = entries.len() as int;
            &&& r is Ok <==> collector.sequences > 0 && collector.prefill_forward_calls
                == collector.sequences && collector.decode_forward_calls > 0 && sites_in(
                entries,
                CalibrationPhase::Weight,
                n,
            ) == 77 && sites_in(entries, CalibrationPhase::Prefill, n) == 65 && sites_in(
                entries,
                CalibrationPhase::Decode,
                n,
            ) == 65
            &&& r is Ok ==> r->Ok_0@.len() == n
            &&& r is Ok && 0 <= i < j < n ==> {
                let a = entries[r->Ok_0@[i] as int];
                let b = entries[r->Ok_0@[j] as int];
                &&& b.phase == CalibrationPhase::Weight ==> a.phase == CalibrationPhase::Weight
                &&& a.phase == CalibrationPhase::Decode ==> b.phase == CalibrationPhase::Decode
                &&& a.phase == b.phase ==> !crate::order::text_before(b.name, a.name)
            }
            &&& r is Ok && 0 <= site < n ==> r->Ok_0@.contains(site as usize)
        }),
{
    let entries = collector@.entries;
    let n = entries.len() as int;
    lemma_sites_in(entries, CalibrationPhase::Weight, n);
    lemma_sites_in(entries, CalibrationPhase::Prefill, n);
    lemma_sites_in(entries, CalibrationPhase::Decode, n);
    if r is Ok {
        let order = r->Ok_0@;
        assert(crate::model::calibration::is_report_order(entries, order));
        if 0 <= i < j < n {
            assert(order[i] < entries.len() && order[j] < entries.len());
            assert(!crate::model::calibration::reported_before(
                entries[order[j] as int],
                entries[order[i] as int],
            ));
        }
        if 0 <= site < n {
            assert(crate::order::ranks_somewhere(order, site));
            let k = choose|k: int| 0 <= k < order.len() && #[trigger] order[k] == site;
            assert(order[k] == site as usize);
        }
    }
}

/// The first `upto` positions at which both rows are finite.
proof fn lemma_finite(reference: Seq<Bf16>, candidate: Seq<Bf16>, upto: int, p: int)
    requires
        0 <= upto <= reference.len() == candidate.len(),
        reference.len() <= usize::MAX,
        0 <= p < upto,
    ensures
        finite_positions(reference, candidate, upto).contains(p as usize) <==> reference[p].bits
            % 0x8000 < 0x7f80 && candidate[p].bits % 0x8000 < 0x7f80,
        forall|i: int|
            0 <= i < finite_positions(reference, candidate, upto).len() ==> #[trigger]
                finite_positions(reference, candidate, upto)[i] < upto,
        forall|i: int, j: int|
            0 <= i < j < finite_positions(reference, candidate, upto).len() ==> #[trigger]
                finite_positions(reference, candidate, upto)[i] < #[trigger]
                finite_positions(reference, candidate, upto)[j],
    decreases upto,
{
    let less = finite_positions(reference, candidate, upto - 1);
    let more = finite_positions(reference, candidate, upto);
    brain_floats_are_told_apart(reference[upto - 1]);
    brain_floats_are_told_apart(candidate[upto - 1]);
    if upto > 1 {
        lemma_finite(reference, candidate, upto - 1, if p < upto - 1 {
            p
        } else {
            0
        });
    } else {
        assert(less =~= Seq::<usize>::empty());
    }
    if p < upto - 1 {
        if less.contains(p as usize) {
            let i = choose|i: int| 0 <= i < less.len() && less[i] == p as usize;
            assert(more[i] == p as usize);
        }
        if more.contains(p as usize) {
            let i = choose|i: int| 0 <= i < more.len() && more[i] == p as usize;
            if i < less.len() {
                assert(less[i] == p as usize);
            } else {
                assert(more[i] == (upto - 1) as usize);
            }
        }
    } else {
        if more.len() > less.len() {
            assert(more[less.len() as int] == p as usize);
        } else if more.contains(p as usize) {
            let i = choose|i: int| 0 <= i < more.len() && more[i] == p as usize;
            assert(less[i] < upto - 1);
        }
    }
}

/// Two outputs are compared where both are finite, in order, and nowhere else; the rest is
/// counted. They have to be of one length, and not empty.
pub proof fn outputs_are_compared_where_finite(
    reference: &[Bf16],
    candidate: &[Bf16],
    r: Result<ComparedOutputs, AnalysisError>,
    p: int,
)
    requires
        call_ensures(compare_outputs, (reference, candidate), r),
        0 <= p < reference@.len() <= usize::MAX,
    ensures
        r is Ok <==> reference@.len() == candidate@.len(),
        r is Ok ==> {
            let positions = r->Ok_0.positions@;
            &&& positions.contains(p as usize) <==> reference@[p].bits % 0x8000 < 0x7f80
                && candidate@[p].bits % 0x8000 < 0x7f80
            &&& forall|i: int, j: int|
                0 <= i < j < positions.len() ==> #[trigger] positions[i] < #[trigger] positions[j]
            &&& positions.len() + r->Ok_0.non_finite_values == reference@.len()
        },
{
    if r is Ok {
        lemma_finite(reference@, candidate@, reference@.len() as int, p);
    }
}

/// Comparing two rows of a point counts one observation, all of its values, and those that
/// are not finite in both.
pub proof fn compared_rows_are_counted(
    counters: &mut PointCounters,
    reference: &[Bf16],
    candidate: &[Bf16],
    r: Result<Vec<usize>, EvaluationError>,
    p: int,
)
    requires
        call_ensures(PointCounters::observe, (counters, reference, candidate), r),
        0 <= p < reference@.len() <= usize::MAX,
        old(counters).observations < u64::MAX,
        old(counters).values + reference@.len() <= u64::MAX,
        old(counters).non_finite_values + reference@.len() <= u64::MAX,
    ensures
        r is Ok <==> reference@.len() == candidate@.len(),
        r is Err ==> *final(counters) == *old(counters) && r->Err_0
            == EvaluationError::ShapeMismatch,
        r is Ok ==> {
            &&& final(counters).observations == old(counters).observations + 1
            &&& final(counters).values == old(counters).values + reference@.len()
            &&& final(counters).non_finite_values + r->Ok_0@.len() == old(
                counters).non_finite_values + reference@.len()
            &&& r->Ok_0@.contains(p as usize) <==> reference@[p].bits % 0x8000 < 0x7f80
                && candidate@[p].bits % 0x8000 < 0x7f80
        },
{
    if r is Ok {
        lemma_finite(reference@, candidate@, reference@.len() as int, p);
        lemma_finite_length(reference@, candidate@, reference@.len() as int);
    }
}

proof fn lemma_finite_length(reference: Seq<Bf16>, candidate: Seq<Bf16>, upto: int)
    requires
        0 <= upto,
    ensures
        finite_positions(reference, candidate, upto).len() <= upto,
    decreases upto,
{
    if upto > 0 {
        lemma_finite_length(reference, candidate, upto - 1);
    }
}

/// A row was captured at `own`, and what stood at `other` now stands at `moved`.
pub open spec fn is_captured(
    was: Seq<PointView>,
    now: Seq<PointView>,
    name: Seq<char>,
    values: Seq<Bf16>,
    r: Result<(), EvaluationError>,
    other: int,
    own: int,
    moved: int,
) -> bool {
    &&& 0 <= own < now.len()
    &&& now[own].name == name
    &&& now[own].values == values
    &&& r is Ok ==> now.len() == was.len() + 1
    &&& r is Err ==> now.len() == was.len() && r->Err_0 == EvaluationError::DuplicatePoint
        && was[own].name == name
    &&& was[other].name != name ==> 0 <= moved < now.len() && now[moved] == was[other]
    &&& was[other].name == name ==> r is Err
}

/// A captured row is there under its name afterwards, with its values; no other row changes
/// or is lost. A second row under one name is told.
pub proof fn captured_rows_are_kept(
    capture: &mut HiddenCapture,
    name: String,
    values: Vec<Bf16>,
    r: Result<(), EvaluationError>,
    other: int,
)
    requires
        call_ensures(HiddenCapture::observe_last_row, (capture, name, values), r),
        crate::model::evaluation::in_name_order(old(capture)@),
        0 <= other < old(capture)@.len(),
    ensures
        exists|own: int, moved: int| #[trigger]
            is_captured(
                old(capture)@,
                final(capture)@,
                name@,
                values@,
                r,
                other,
                own,
                moved,
            ),
{
    let was = old(capture)@;
    let now = final(capture)@;
    let place = choose|place: int|
        {
            &&& #[trigger] crate::model::evaluation::is_place(was, name@, place)
            &&& if place < was.len() && was[place].name == name@ {
                r == Err::<(), EvaluationError>(EvaluationError::DuplicatePoint) && now
                    == was.update(place, PointView { name: name@, values: values@ })
            } else {
                r is Ok && now == was.insert(place, PointView { name: name@, values: values@ })
            }
        };
    if r is Ok {
        if was[other].name == name@ {
            lemma_no_text_before_itself(name@);
            if place <= other {
                if place < other {
                    assert(crate::order::text_before(was[place].name, was[other].name));
                    assert(!crate::order::text_before(was[place].name, name@));
                }
            } else {
                assert(crate::order::text_before(was[other].name, name@));
            }
        }
    }
    let moved = if r is Ok && other >= place {
        other + 1
    } else {
        other
    };
    assert(is_captured(was, now, name@, values@, r, other, place, moved));
}

proof fn lemma_no_text_before_itself(text: Seq<char>)
    ensures
        !crate::order::text_before(text, text),
    decreases text.len(),
{
    if text.len() > 0 {
        lemma_no_text_before_itself(text.skip(1));
    }
}

/// How many of the first `upto` values on the left are somewhere on the right.
pub open spec fn found_on_the_right(left: Seq<usize>, right: Seq<usize>, upto: int) -> int
    decreases upto,
{
    if upto <= 0 {
        0
    } else {
        found_on_the_right(left, right, upto - 1) + if exists|k: int|
            0 <= k < right.len() && #[trigger] right[k] == left[upto - 1] {
            1int
        } else {
            0int
        }
    }
}

proof fn lemma_found(left: Seq<usize>, right: Seq<usize>, upto: int)
    requires
        0 <= upto <= left.len(),
    ensures
        crate::model::evaluation::shared(left, right, upto) == found_on_the_right(
            left,
            right,
            upto,
        ),
    decreases upto,
{
    if upto > 0 {
        lemma_found(left, right, upto - 1);
        let value = left[upto - 1];
        if right.contains(value) {
            let k = choose|k: int| 0 <= k < right.len() && right[k] == value;
            assert(right[k] == value);
        }
    }
}

/// The overlap of two lists is how many of the one are in the other.
pub proof fn overlaps_are_counted(left: &[usize], right: &[usize], r: usize)
    requires
        call_ensures(overlap, (left, right), r),
    ensures
        r == found_on_the_right(left@, right@, left@.len() as int),
{
    lemma_found(left@, right@, left@.len() as int);
}

/// The top list of a row of scores that are not negative has larger scores first and equal
/// ones in their order, and leaves out nothing larger than what it lists.
pub proof fn top_lists_hold_the_largest(
    scores: &[F32],
    count: usize,
    r: Vec<usize>,
    i: int,
    j: int,
    other: int,
)
    requires
        call_ensures(top_indices, (scores, count), r),
        forall|k: int| 0 <= k < scores@.len() ==> (#[trigger] scores@[k]).bits < 0x7f80_0000,
        0 <= i < j < count,
        0 <= other < scores@.len(),
    ensures
        r@.len() == count,
        j < scores@.len() ==> {
            &&& r@[i] < scores@.len() && r@[j] < scores@.len()
            &&& scores@[r@[i] as int].bits >= scores@[r@[j] as int].bits
            &&& scores@[r@[i] as int].bits == scores@[r@[j] as int].bits ==> r@[i] < r@[j]
        },
        j >= scores@.len() ==> r@[j] == usize::MAX,
        i < scores@.len() && !r@.contains(other as usize) ==> scores@[other].bits
            <= scores@[r@[i] as int].bits,
{
    let m = crate::model::evaluation::filled(scores@, count as int);
    if j < scores@.len() {
        assert(r@[i] < scores@.len());
        assert(r@[j] < scores@.len());
        assert(crate::model::evaluation::scores_before(scores@, r@[i] as int, r@[j] as int));
        assert(scores@[r@[i] as int].bits < 0x7f80_0000);
        assert(scores@[r@[j] as int].bits < 0x7f80_0000);
    }
    if i < scores@.len() && !r@.contains(other as usize) {
        assert(r@[i] < scores@.len());
        assert(!crate::model::evaluation::lists(r@, m, other)) by {
            if crate::model::evaluation::lists(r@, m, other) {
                let k = choose|k: int| 0 <= k < m && #[trigger] r@[k] == other;
                assert(r@[k] == other as usize);
            }
        }
        assert(crate::model::evaluation::scores_before(scores@, r@[i] as int, other));
        assert(scores@[r@[i] as int].bits < 0x7f80_0000);
        assert(scores@[other].bits < 0x7f80_0000);
    }
}

/// Two rows of logits are measured if they are of one length, the target is one of them, and
/// all of both is finite; otherwise what is not finite is counted. Agreements at the top are
/// counted with the observations.
pub proof fn logits_are_measured_if_finite(
    metrics: &mut LogitMetricAccumulator,
    reference: &[Bf16],
    candidate: &[Bf16],
    target: u32,
    r: Result<LogitStep, EvaluationError>,
)
    requires
        call_ensures(LogitMetricAccumulator::observe, (metrics, reference, candidate, target), r),
        reference@.len() > 0,
        old(metrics).observations < u64::MAX,
        old(metrics).top1_agreements < u64::MAX,
        old(metrics).non_finite_logits + reference@.len() <= u64::MAX,
    ensures
        ({
            let n = reference@.len() as int;
            let finite = forall|p: int|
                0 <= p < n ==> (#[trigger] reference@[p]).bits % 0x8000 < 0x7f80
                    && candidate@[p].bits % 0x8000 < 0x7f80;
            let was = *old(metrics);
            let now = *final(metrics);
            &&& r is Ok <==> n == candidate@.len() && target < n
            &&& r is Err && n != candidate@.len() ==> r->Err_0 == EvaluationError::ShapeMismatch
            &&& r is Err && n == candidate@.len() ==> r->Err_0
                == EvaluationError::TargetOutsideVocabulary
            &&& r is Err ==> now == was
            &&& r is Ok ==> (r->Ok_0 is Measured <==> finite)
            &&& r is Ok && r->Ok_0 is Measured ==> now.observations == was.observations + 1
                && now.non_finite_logits == was.non_finite_logits
            &&& r is Ok && r->Ok_0 is Measured && r->Ok_0->top1_agrees ==> now.top1_agreements
                == was.top1_agreements + 1
            &&& r is Ok && r->Ok_0 is Measured && !r->Ok_0->top1_agrees ==> now.top1_agreements
                == was.top1_agreements
            &&& r is Ok && r->Ok_0 is NonFinite ==> now.observations == was.observations
                && now.top1_agreements == was.top1_agreements && now.non_finite_logits
                > was.non_finite_logits
        }),
{
    let n = reference@.len() as int;
    lemma_finite_length(reference@, candidate@, n);
    if n == candidate@.len() {
        if finite_positions(reference@, candidate@, n).len() == n {
            lemma_all_listed(reference@, candidate@, n);
        } else {
            lemma_some_lost(reference@, candidate@, n);
        }
    }
}

proof fn lemma_all_listed(reference: Seq<Bf16>, candidate: Seq<Bf16>, upto: int)
    requires
        0 <= upto <= reference.len() == candidate.len(),
        finite_positions(reference, candidate, upto).len() == upto,
    ensures
        forall|p: int|
            0 <= p < upto ==> (#[trigger] reference[p]).bits % 0x8000 < 0x7f80 && candidate[p].bits
                % 0x8000 < 0x7f80,
    decreases upto,
{
    if upto > 0 {
        lemma_finite_length(reference, candidate, upto - 1);
        lemma_all_listed(reference, candidate, upto - 1);
        brain_floats_are_told_apart(reference[upto - 1]);
        brain_floats_are_told_apart(candidate[upto - 1]);
    }
}

proof fn lemma_some_lost(reference: Seq<Bf16>, candidate: Seq<Bf16>, upto: int)
    requires
        0 <= upto <= reference.len() == candidate.len(),
        finite_positions(reference, candidate, upto).len() != upto,
    ensures
        exists|p: int|
            0 <= p < upto && !((#[trigger] reference[p]).bits % 0x8000 < 0x7f80 && candidate[p].bits
                % 0x8000 < 0x7f80),
    decreases upto,
{
    if upto > 0 {
        let p = upto - 1;
        brain_floats_are_told_apart(reference[p]);
        brain_floats_are_told_apart(candidate[p]);
        if finite_positions(reference, candidate, p).len() != p {
            lemma_some_lost(reference, candidate, p);
        } else {
            assert(!(reference[p].bits % 0x8000 < 0x7f80 && candidate[p].bits % 0x8000 < 0x7f80));
        }
    }
}

proof fn lemma_activations(tensors: Seq<OutlierCandidate>, upto: int, p: int)
    requires
        0 <= upto <= tensors.len() <= usize::MAX,
    ensures
        forall|i: int|
            0 <= i < activation_positions(tensors, upto).len() ==> #[trigger] activation_positions(
                tensors,
                upto,
            )[i] < upto && tensors[activation_positions(tensors, upto)[i] as int].kind
                == CalibrationTensorKind::Activation,
    decreases upto,
{
    if upto > 0 {
        lemma_activations(tensors, upto - 1, p);
    }
}

/// The outlier list holds activations only, no more than asked for, those with larger ratios
/// first.
pub proof fn outliers_are_activations(
    tensors: &Vec<OutlierCandidate>,
    limit: usize,
    r: Vec<usize>,
    i: int,
    j: int,
)
    requires
        call_ensures(activation_outliers, (tensors, limit), r),
        0 <= i < j < r@.len(),
        tensors@.len() <= usize::MAX,
    ensures
        r@.len() <= limit,
        r@[i] < tensors@.len() && r@[j] < tensors@.len(),
        tensors@[r@[i] as int].kind == CalibrationTensorKind::Activation,
        tensors@[r@[i] as int].amax_over_p99_99 is Some && tensors@[r@[j] as int].amax_over_p99_99
            is Some && tensors@[r@[i] as int].amax_over_p99_99->0.bits < 0x8000_0000
            && tensors@[r@[j] as int].amax_over_p99_99->0.bits < 0x8000_0000
            ==> tensors@[r@[i] as int].amax_over_p99_99->0.bits
            >= tensors@[r@[j] as int].amax_over_p99_99->0.bits,
{
    let positions = activation_positions(tensors@, tensors@.len() as int);
    let keys = crate::model::calibration::outlier_keys(tensors@, positions);
    let ranking = choose|ranking: Seq<usize>|
        {
            &&& #[trigger] crate::order::is_ranking(keys, ranking)
            &&& r@ == Seq::new(
                crate::num::min_int(limit as int, positions.len() as int) as nat,
                |k: int| positions[ranking[k] as int],
            )
        };
    lemma_activations(tensors@, tensors@.len() as int, 0);
    assert(ranking[i] < keys.len() && ranking[j] < keys.len());
    assert(crate::order::ranks_before(keys, ranking[i] as int, ranking[j] as int));
    assert(r@[i] == positions[ranking[i] as int]);
    assert(r@[j] == positions[ranking[j] as int]);
}

/// Comparing the captures of a pass counts one observation for every point of the reference
/// and leaves all other points alone; the sums of a point run over the positions that are
/// finite in its own row and in the other capture's row of its name. Captures of different
/// size are not compared at all.
pub proof fn passes_are_compared_point_by_point(
    accumulator: &mut PropagationAccumulator,
    reference: HiddenCapture,
    candidate: HiddenCapture,
    r: Result<Vec<Vec<usize>>, EvaluationError>,
    i: int,
    p: int,
    other: Seq<char>,
)
    requires
        call_ensures(PropagationAccumulator::observe, (accumulator, &reference, &candidate), r),
        0 <= i < reference@.len(),
        0 <= p < reference@[i].values.len() <= usize::MAX,
        forall|k: int| 0 <= k < reference@.len() ==> (#[trigger] reference@[k]).name != other,
        counters_of(old(accumulator)@, reference@[i].name).observations < u64::MAX,
    ensures
        reference@.len() != candidate@.len() <==> r == Err::<Vec<Vec<usize>>, EvaluationError>(
            EvaluationError::PointCount,
        ),
        reference@.len() != candidate@.len() ==> final(accumulator)@ == old(accumulator)@,
        r is Ok ==> {
            let name = reference@[i].name;
            &&& r->Ok_0@.len() == reference@.len()
            &&& counters_of(final(accumulator)@, name).observations == counters_of(
                old(accumulator)@,
                name,
            ).observations + 1
            &&& counters_of(final(accumulator)@, other) == counters_of(old(accumulator)@, other)
            &&& r->Ok_0@[i]@.contains(p as usize) <==> reference@[i].values[p].bits % 0x8000
                < 0x7f80 && row_of(candidate@, name)[p].bits % 0x8000 < 0x7f80
        },
{
    if r is Ok {
        let name = reference@[i].name;
        let values = reference@[i].values;
        assert(reference@.take(reference@.len() as int) =~= reference@);
        assert(!has_point(reference@, other));
        assert(is_comparable(reference@, candidate@, i));
        lemma_finite(values, row_of(candidate@, name), values.len() as int, p);
        assert(r->Ok_0@[i]@ == finite_positions(
            values,
            row_of(candidate@, name),
            values.len() as int,
        ));
    }
}

} // verus!
