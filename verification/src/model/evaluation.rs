//! Evaluation of a candidate against the reference: captured hidden rows, compared logits
//! and the counters of both.
//!
//! Sums and logarithms are formed by the application, in floating point, over the values
//! that the functions here pick out.
use vstd::prelude::*;

use crate::bf16::{widen, Bf16};
use crate::float::F32;
use crate::generation::sampler::last_maximum;
#[allow(unused_imports)]
use crate::generation::sampler::is_last_maximum;
#[allow(unused_imports)]
use crate::model::fp8_analysis::finite_positions;
use crate::model::fp8_analysis::compare_outputs;
#[allow(unused_imports)]
use crate::num::min_int;
#[allow(unused_imports)]
use crate::order::text_before;
use crate::order::text_precedes;
use crate::text::text_eq;

verus! {

#[derive(Debug)]
pub enum EvaluationError {
    /// A point was captured twice.
    DuplicatePoint,
    /// The captures have different numbers of points.
    PointCount,
    /// The candidate lacks this point.
    MissingPoint(String),
    /// The two vectors are empty or of different lengths.
    ShapeMismatch,
    /// The target token lies outside the vocabulary.
    TargetOutsideVocabulary,
    NoObservations,
}

/// One captured row.
#[derive(Debug)]
pub struct CapturePoint {
    pub name: String,
    pub values: Vec<Bf16>,
}

#[verifier::ext_equal]
pub struct PointView {
    pub name: Seq<char>,
    pub values: Seq<Bf16>,
}

impl View for CapturePoint {
    type V = PointView;

    open spec fn view(&self) -> PointView {
        PointView { name: self.name@, values: self.values@ }
    }
}

/// The rows captured during one forward pass, in the order of their names.
#[derive(Debug)]
pub struct HiddenCapture {
    pub points: Vec<CapturePoint>,
}

impl View for HiddenCapture {
    type V = Seq<PointView>;

    open spec fn view(&self) -> Seq<PointView> {
        Seq::new(self.points@.len(), |i: int| self.points@[i]@)
    }
}

/// The points are in the order of their names, and no name occurs twice.
pub open spec fn in_name_order(points: Seq<PointView>) -> bool {
    forall|i: int, j: int|
        0 <= i < j < points.len() ==> text_before(
            (#[trigger] points[i]).name,
            (#[trigger] points[j]).name,
        )
}

/// `place` is where `name` belongs: all points before it have smaller names, and none from
/// it on has.
pub open spec fn is_place(points: Seq<PointView>, name: Seq<char>, place: int) -> bool {
    &&& 0 <= place <= points.len()
    &&& forall|i: int| 0 <= i < place ==> text_before((#[trigger] points[i]).name, name)
    &&& forall|i: int|
        place <= i < points.len() ==> !text_before((#[trigger] points[i]).name, name)
}

proof fn lemma_text_transitive(a: Seq<char>, b: Seq<char>, c: Seq<char>)
    requires
        text_before(a, b),
        text_before(b, c),
    ensures
        text_before(a, c),
    decreases a.len(),
{
    if a.len() > 0 && b.len() > 0 && c.len() > 0 && a[0] == b[0] && b[0] == c[0] {
        lemma_text_transitive(a.skip(1), b.skip(1), c.skip(1));
    }
}

impl HiddenCapture {
    pub fn new() -> (r: Self)
        ensures
            r@ == Seq::<PointView>::empty(),
            in_name_order(r@),
    {
        let r = HiddenCapture { points: Vec::new() };
        assert(r@ =~= Seq::<PointView>::empty());
        r
    }

    fn place_of(&self, name: &str) -> (r: usize)
        requires
            in_name_order(self@),
        ensures
            is_place(self@, name@, r as int),
    {
        let mut place: usize = 0;
        while place < self.points.len() && text_precedes(self.points[place].name.as_str(), name)
            invariant
                place <= self.points@.len(),
                forall|i: int|
                    0 <= i < place ==> text_before((#[trigger] self@[i]).name, name@),
            decreases self.points@.len() - place,
        {
            assert(self@[place as int].name == self.points@[place as int].name@);
            place = place + 1;
        }
        proof {
            if place < self@.len() {
                assert(!text_before(self@[place as int].name, name@));
                assert forall|i: int| place <= i < self@.len() implies !text_before(
                    (#[trigger] self@[i]).name,
                    name@,
                ) by {
                    if i > place && text_before(self@[i].name, name@) {
                        lemma_text_transitive(self@[place as int].name, self@[i].name, name@);
                    }
                }
            }
        }
        place
    }

    /// Keeps the last row of a point. A second row of the same point replaces the first and
    /// is an error.
    pub fn observe_last_row(&mut self, name: String, values: Vec<Bf16>) -> (r: Result<
        (),
        EvaluationError,
    >)
        requires
            in_name_order(old(self)@),
        ensures
            in_name_order(final(self)@),
            exists|place: int|
                {
                    &&& #[trigger] is_place(old(self)@, name@, place)
                    &&& if place < old(self)@.len() && old(self)@[place].name == name@ {
                        r == Err::<(), EvaluationError>(EvaluationError::DuplicatePoint) && final(
                            self)@ == old(self)@.update(
                            place,
                            PointView { name: name@, values: values@ },
                        )
                    } else {
                        r is Ok && final(self)@ == old(self)@.insert(
                            place,
                            PointView { name: name@, values: values@ },
                        )
                    }
                },
    {
        let ghost before = self@;
        let place: usize = self.place_of(name.as_str());
        let ghost added = PointView { name: name@, values: values@ };
        if place < self.points.len() && text_eq(self.points[place].name.as_str(), name.as_str()) {
            self.points[place].values = values;
            proof {
                assert(self@ =~= before.update(place as int, added));
                assert forall|i: int| 0 <= i < before.len() implies (#[trigger] self@[i]).name
                    == before[i].name by {}
            }
            return Err(EvaluationError::DuplicatePoint);
        }
        self.points.insert(place, CapturePoint { name, values });
        proof {
            assert(self@ =~= before.insert(place as int, added));
            assert forall|i: int, j: int| 0 <= i < j < self@.len() implies text_before(
                (#[trigger] self@[i]).name,
                (#[trigger] self@[j]).name,
            ) by {
                if i == place {
                    assert(self@[j] == before[j - 1]);
                    crate::order::text_order_is_total(added.name, before[j - 1].name);
                    if before[j - 1].name == added.name && j - 1 > place {
                        assert(text_before(before[place as int].name, before[j - 1].name));
                    }
                } else if j == place {
                    assert(self@[i] == before[i]);
                } else if i < place && j < place {
                    assert(self@[i] == before[i] && self@[j] == before[j]);
                } else if i < place {
                    assert(self@[i] == before[i] && self@[j] == before[j - 1]);
                } else {
                    assert(self@[i] == before[i - 1] && self@[j] == before[j - 1]);
                }
            }
        }
        Ok(())
    }

    fn index_of(&self, name: &str) -> (r: Option<usize>)
        ensures
            match r {
                Some(index) => index < self@.len() && self@[index as int].name == name@,
                None => forall|i: int| 0 <= i < self@.len() ==> (#[trigger] self@[i]).name != name@,
            },
    {
        let mut index: usize = 0;
        while index < self.points.len()
            invariant
                index <= self.points@.len(),
                forall|i: int| 0 <= i < index ==> (#[trigger] self@[i]).name != name@,
            decreases self.points@.len() - index,
        {
            if text_eq(self.points[index].name.as_str(), name) {
                return Some(index);
            }
            index = index + 1;
        }
        None
    }
}

/// Counters of one point over all compared passes.
#[derive(Clone, Copy, Debug, PartialEq, Eq, Structural)]
pub struct PointCounters {
    pub observations: u64,
    pub values: u64,
    pub non_finite_values: u64,
}

impl PointCounters {
    pub open spec fn zero() -> PointCounters {
        PointCounters { observations: 0, values: 0, non_finite_values: 0 }
    }

    /// The counters after one more pair of rows.
    pub open spec fn observed(self, reference: Seq<Bf16>, candidate: Seq<Bf16>) -> PointCounters {
        let n = reference.len() as int;
        let finite = finite_positions(reference, candidate, n).len();
        PointCounters {
            observations: self.observations.saturating_add(1),
            values: min_int(self.values + n, u64::MAX as int) as u64,
            non_finite_values: min_int(self.non_finite_values + (n - finite), u64::MAX as int)
                as u64,
        }
    }

    /// Counts one pair of rows and returns the positions at which both are finite.
    pub fn observe(&mut self, reference: &[Bf16], candidate: &[Bf16]) -> (r: Result<
        Vec<usize>,
        EvaluationError,
    >)
        ensures
            match r {
                Ok(positions) => {
                    &&& reference@.len() > 0
                    &&& reference@.len() == candidate@.len()
                    &&& positions@ == finite_positions(
                        reference@,
                        candidate@,
                        reference@.len() as int,
                    )
                    &&& *final(self) == old(self).observed(reference@, candidate@)
                },
                Err(e) => {
                    &&& reference@.len() == 0 || reference@.len() != candidate@.len()
                    &&& e == EvaluationError::ShapeMismatch
                    &&& *final(self) == *old(self)
                },
            },
    {
        match compare_outputs(reference, candidate) {
            Ok(compared) => {
                let length: usize = reference.len();
                self.observations = self.observations.saturating_add(1);
                self.values = self.values.saturating_add(length as u64);
                self.non_finite_values = self.non_finite_values.saturating_add(
                    compared.non_finite_values as u64,
                );
                Ok(compared.positions)
            },
            Err(_) => Err(EvaluationError::ShapeMismatch),
        }
    }
}

/// A point with its counters.
#[derive(Debug)]
pub struct PropagationPoint {
    pub name: String,
    pub counters: PointCounters,
}

/// The counters of all points, in the order of their names.
#[derive(Debug)]
pub struct PropagationAccumulator {
    pub points: Vec<PropagationPoint>,
}

impl View for PropagationAccumulator {
    type V = Seq<(Seq<char>, PointCounters)>;

    open spec fn view(&self) -> Seq<(Seq<char>, PointCounters)> {
        Seq::new(self.points@.len(), |i: int| (self.points@[i].name@, self.points@[i].counters))
    }
}

/// The points are in the order of their names, and no name occurs twice.
pub open spec fn counters_in_order(points: Seq<(Seq<char>, PointCounters)>) -> bool {
    forall|i: int, j: int|
        0 <= i < j < points.len() ==> text_before(
            (#[trigger] points[i]).0,
            (#[trigger] points[j]).0,
        )
}

pub open spec fn is_counted(points: Seq<(Seq<char>, PointCounters)>, name: Seq<char>, index: int) -> bool {
    0 <= index < points.len() && points[index].0 == name
}

/// The counters kept under a name: all zero if there are none.
pub open spec fn counters_of(points: Seq<(Seq<char>, PointCounters)>, name: Seq<char>) -> PointCounters {
    if exists|i: int| is_counted(points, name, i) {
        points[choose|i: int| is_counted(points, name, i)].1
    } else {
        PointCounters::zero()
    }
}

/// Counters are kept under the name.
pub open spec fn holds_name(points: Seq<(Seq<char>, PointCounters)>, name: Seq<char>) -> bool {
    exists|i: int| is_counted(points, name, i)
}

/// The names that counters are kept under: those of before, and those of the first `upto`
/// reference points.
pub open spec fn names_entered(
    before: Seq<(Seq<char>, PointCounters)>,
    reference: Seq<PointView>,
    upto: int,
    after: Seq<(Seq<char>, PointCounters)>,
) -> bool {
    forall|name: Seq<char>| #[trigger]
        holds_name(after, name) == (holds_name(before, name) || has_point(
            reference.take(upto),
            name,
        ))
}

pub open spec fn has_point(points: Seq<PointView>, name: Seq<char>) -> bool {
    exists|i: int| 0 <= i < points.len() && (#[trigger] points[i]).name == name
}

/// The row captured under a name.
pub open spec fn row_of(points: Seq<PointView>, name: Seq<char>) -> Seq<Bf16> {
    points[choose|i: int| 0 <= i < points.len() && (#[trigger] points[i]).name == name].values
}

/// The reference point at `index` can be compared.
pub open spec fn is_comparable(
    reference: Seq<PointView>,
    candidate: Seq<PointView>,
    index: int,
) -> bool {
    let name = reference[index].name;
    &&& has_point(candidate, name)
    &&& reference[index].values.len() > 0
    &&& reference[index].values.len() == row_of(candidate, name).len()
}

/// Every reference point can be compared.
pub open spec fn all_comparable(reference: Seq<PointView>, candidate: Seq<PointView>) -> bool {
    forall|i: int|
        0 <= i < reference.len() ==> #[trigger] is_comparable(reference, candidate, i)
}

/// The first `upto` reference points are counted: under their names the counters have grown
/// by one pair of rows, and all other counters are as before.
pub open spec fn counted(
    before: Seq<(Seq<char>, PointCounters)>,
    reference: Seq<PointView>,
    candidate: Seq<PointView>,
    upto: int,
    after: Seq<(Seq<char>, PointCounters)>,
) -> bool {
    &&& forall|i: int|
        0 <= i < upto ==> #[trigger] counters_of(after, reference[i].name) == counters_of(
            before,
            reference[i].name,
        ).observed(reference[i].values, row_of(candidate, reference[i].name))
    &&& forall|name: Seq<char>|
        !has_point(reference.take(upto), name) ==> #[trigger] counters_of(after, name)
            == counters_of(before, name)
}

/// The reference point at `index` is the first that cannot be compared.
pub open spec fn stops_at(
    reference: Seq<PointView>,
    candidate: Seq<PointView>,
    index: int,
) -> bool {
    &&& 0 <= index < reference.len()
    &&& !is_comparable(reference, candidate, index)
    &&& forall|i: int| 0 <= i < index ==> #[trigger] is_comparable(reference, candidate, i)
}

proof fn lemma_before_is_strict(a: Seq<char>, b: Seq<char>)
    requires
        text_before(a, b),
    ensures
        a != b,
{
    crate::order::text_order_is_total(a, b);
}

proof fn lemma_counters_at(points: Seq<(Seq<char>, PointCounters)>, index: int)
    requires
        counters_in_order(points),
        0 <= index < points.len(),
    ensures
        counters_of(points, points[index].0) == points[index].1,
{
    let name = points[index].0;
    assert(is_counted(points, name, index));
    let i = choose|i: int| is_counted(points, name, i);
    if i < index {
        lemma_before_is_strict(points[i].0, points[index].0);
    } else if index < i {
        lemma_before_is_strict(points[index].0, points[i].0);
    }
}

proof fn lemma_row_is_unique(points: Seq<PointView>, index: int)
    requires
        in_name_order(points),
        0 <= index < points.len(),
    ensures
        has_point(points, points[index].name),
        row_of(points, points[index].name) == points[index].values,
{
    let name = points[index].name;
    let i = choose|i: int| 0 <= i < points.len() && (#[trigger] points[i]).name == name;
    if i < index {
        lemma_before_is_strict(points[i].name, points[index].name);
    } else if index < i {
        lemma_before_is_strict(points[index].name, points[i].name);
    }
}

/// Every entry of `before` has its name and counters in `after`, except that the entry of
/// `name` holds `counters`, and `after` has no other names.
spec fn entries_kept(
    before: Seq<(Seq<char>, PointCounters)>,
    name: Seq<char>,
    counters: PointCounters,
    after: Seq<(Seq<char>, PointCounters)>,
) -> bool {
    &&& exists|k: int| 0 <= k < after.len() && #[trigger] after[k] == (name, counters)
    &&& forall|i: int|
        0 <= i < before.len() && (#[trigger] before[i]).0 != name ==> after.contains(before[i])
    &&& forall|k: int|
        0 <= k < after.len() && (#[trigger] after[k]).0 != name ==> before.contains(after[k])
}

proof fn lemma_counters_after(
    before: Seq<(Seq<char>, PointCounters)>,
    name: Seq<char>,
    counters: PointCounters,
    after: Seq<(Seq<char>, PointCounters)>,
    other: Seq<char>,
)
    requires
        counters_in_order(before),
        counters_in_order(after),
        entries_kept(before, name, counters, after),
    ensures
        counters_of(after, other) == (if other == name {
            counters
        } else {
            counters_of(before, other)
        }),
{
    if other == name {
        let k = choose|k: int| 0 <= k < after.len() && #[trigger] after[k] == (name, counters);
        lemma_counters_at(after, k);
    } else if exists|i: int| is_counted(before, other, i) {
        let i = choose|i: int| is_counted(before, other, i);
        lemma_counters_at(before, i);
        let k = choose|k: int| 0 <= k < after.len() && after[k] == before[i];
        lemma_counters_at(after, k);
    } else {
        assert forall|k: int| !is_counted(after, other, k) by {
            if is_counted(after, other, k) {
                assert(before.contains(after[k]));
                let i = choose|i: int| 0 <= i < before.len() && before[i] == after[k];
                assert(is_counted(before, other, i));
            }
        }
    }
}

proof fn lemma_names_after(
    before: Seq<(Seq<char>, PointCounters)>,
    name: Seq<char>,
    counters: PointCounters,
    after: Seq<(Seq<char>, PointCounters)>,
    other: Seq<char>,
)
    requires
        entries_kept(before, name, counters, after),
    ensures
        holds_name(after, other) == (holds_name(before, other) || other == name),
{
    if other == name {
        let k = choose|k: int| 0 <= k < after.len() && #[trigger] after[k] == (name, counters);
        assert(is_counted(after, other, k));
    } else {
        if holds_name(before, other) {
            let i = choose|i: int| is_counted(before, other, i);
            let k = choose|k: int| 0 <= k < after.len() && after[k] == before[i];
            assert(after.contains(before[i]));
            assert(is_counted(after, other, k));
        }
        if holds_name(after, other) {
            let k = choose|k: int| is_counted(after, other, k);
            let i = choose|i: int| 0 <= i < before.len() && before[i] == after[k];
            assert(before.contains(after[k]));
            assert(is_counted(before, other, i));
        }
    }
}

proof fn lemma_names_one_more(
    start: Seq<(Seq<char>, PointCounters)>,
    reference: Seq<PointView>,
    index: int,
    before: Seq<(Seq<char>, PointCounters)>,
    after: Seq<(Seq<char>, PointCounters)>,
)
    requires
        0 <= index < reference.len(),
        names_entered(start, reference, index, before),
        forall|other: Seq<char>| #[trigger]
            holds_name(after, other) == (holds_name(before, other) || other
                == reference[index].name),
    ensures
        names_entered(start, reference, index + 1, after),
{
    let grown = reference.take(index + 1);
    assert forall|name: Seq<char>| #[trigger] holds_name(after, name) == (holds_name(start, name)
        || has_point(grown, name)) by {
        assert(holds_name(before, name) == (holds_name(start, name) || has_point(
            reference.take(index),
            name,
        )));
        assert(grown[index] == reference[index]);
        if has_point(reference.take(index), name) {
            let i = choose|i: int|
                0 <= i < index && (#[trigger] reference.take(index)[i]).name == name;
            assert(grown[i].name == name);
        }
        if has_point(grown, name) {
            let i = choose|i: int| 0 <= i < grown.len() && (#[trigger] grown[i]).name == name;
            if i < index {
                assert(reference.take(index)[i].name == name);
            }
        }
    }
}

/// `place` is where the counters of `name` belong.
spec fn is_counter_place(
    points: Seq<(Seq<char>, PointCounters)>,
    name: Seq<char>,
    place: int,
) -> bool {
    &&& 0 <= place <= points.len()
    &&& forall|i: int| 0 <= i < place ==> text_before((#[trigger] points[i]).0, name)
    &&& forall|i: int| place <= i < points.len() ==> !text_before((#[trigger] points[i]).0, name)
}

proof fn lemma_insertion_in_order(
    before: Seq<(Seq<char>, PointCounters)>,
    name: Seq<char>,
    counters: PointCounters,
    place: int,
)
    requires
        counters_in_order(before),
        is_counter_place(before, name, place),
        place < before.len() ==> before[place].0 != name,
    ensures
        counters_in_order(before.insert(place, (name, counters))),
        entries_kept(before, name, counters, before.insert(place, (name, counters))),
{
    let after = before.insert(place, (name, counters));
    assert forall|i: int, j: int| 0 <= i < j < after.len() implies text_before(
        (#[trigger] after[i]).0,
        (#[trigger] after[j]).0,
    ) by {
        if i == place {
            assert(after[j] == before[j - 1]);
            crate::order::text_order_is_total(name, before[j - 1].0);
            if j - 1 > place {
                assert(text_before(before[place].0, before[j - 1].0));
            }
        } else if j == place {
            assert(after[i] == before[i]);
        } else if i < place && j < place {
            assert(after[i] == before[i] && after[j] == before[j]);
        } else if i < place {
            assert(after[i] == before[i] && after[j] == before[j - 1]);
        } else {
            assert(after[i] == before[i - 1] && after[j] == before[j - 1]);
        }
    }
    assert(after[place] == (name, counters));
    assert forall|i: int| 0 <= i < before.len() && (#[trigger] before[i]).0 != name implies after.contains(
        before[i],
    ) by {
        if i < place {
            assert(after[i] == before[i]);
        } else {
            assert(after[i + 1] == before[i]);
        }
    }
    assert forall|k: int| 0 <= k < after.len() && (#[trigger] after[k]).0 != name implies before.contains(
        after[k],
    ) by {
        if k < place {
            assert(before[k] == after[k]);
        } else {
            assert(before[k - 1] == after[k]);
        }
    }
}

proof fn lemma_counted_one_more(
    start: Seq<(Seq<char>, PointCounters)>,
    reference: Seq<PointView>,
    candidate: Seq<PointView>,
    index: int,
    before: Seq<(Seq<char>, PointCounters)>,
    after: Seq<(Seq<char>, PointCounters)>,
)
    requires
        in_name_order(reference),
        0 <= index < reference.len(),
        counted(start, reference, candidate, index, before),
        forall|other: Seq<char>| #[trigger]
            counters_of(after, other) == (if other == reference[index].name {
                counters_of(before, other).observed(
                    reference[index].values,
                    row_of(candidate, other),
                )
            } else {
                counters_of(before, other)
            }),
    ensures
        counted(start, reference, candidate, index + 1, after),
{
    let name = reference[index].name;
    let grown = reference.take(index + 1);
    assert(!has_point(reference.take(index), name)) by {
        if has_point(reference.take(index), name) {
            let i = choose|i: int|
                0 <= i < index && (#[trigger] reference.take(index)[i]).name == name;
            lemma_before_is_strict(reference[i].name, reference[index].name);
        }
    }
    assert forall|i: int| 0 <= i < index + 1 implies #[trigger] counters_of(
        after,
        reference[i].name,
    ) == counters_of(start, reference[i].name).observed(
        reference[i].values,
        row_of(candidate, reference[i].name),
    ) by {
        if i < index {
            lemma_before_is_strict(reference[i].name, name);
            assert(counters_of(before, reference[i].name) == counters_of(
                start,
                reference[i].name,
            ).observed(reference[i].values, row_of(candidate, reference[i].name)));
        }
    }
    assert forall|other: Seq<char>| !has_point(grown, other) implies #[trigger] counters_of(
        after,
        other,
    ) == counters_of(start, other) by {
        assert(grown[index].name == name);
        if has_point(reference.take(index), other) {
            let i = choose|i: int|
                0 <= i < index && (#[trigger] reference.take(index)[i]).name == other;
            assert(grown[i].name == other);
        }
        assert(counters_of(before, other) == counters_of(start, other));
    }
}

impl PropagationAccumulator {
    pub fn new() -> (r: Self)
        ensures
            r@ == Seq::<(Seq<char>, PointCounters)>::empty(),
            counters_in_order(r@),
    {
        let r = PropagationAccumulator { points: Vec::new() };
        assert(r@ =~= Seq::<(Seq<char>, PointCounters)>::empty());
        r
    }

    /// Counts a pair of rows under a name, and gives the positions at which both are finite.
    fn observe_point(&mut self, name: &str, reference: &[Bf16], candidate: &[Bf16]) -> (r: Result<
        Vec<usize>,
        EvaluationError,
    >)
        requires
            counters_in_order(old(self)@),
        ensures
            counters_in_order(final(self)@),
            forall|other: Seq<char>| #[trigger]
                holds_name(final(self)@, other) == (holds_name(old(self)@, other) || other
                    == name@),
            match r {
                Ok(positions) => {
                    &&& reference@.len() > 0
                    &&& reference@.len() == candidate@.len()
                    &&& positions@ == finite_positions(
                        reference@,
                        candidate@,
                        reference@.len() as int,
                    )
                    &&& forall|other: Seq<char>| #[trigger]
                        counters_of(final(self)@, other) == (if other == name@ {
                            counters_of(old(self)@, name@).observed(reference@, candidate@)
                        } else {
                            counters_of(old(self)@, other)
                        })
                },
                Err(e) => {
                    &&& reference@.len() == 0 || reference@.len() != candidate@.len()
                    &&& e == EvaluationError::ShapeMismatch
                    &&& forall|other: Seq<char>| #[trigger]
                        counters_of(final(self)@, other) == counters_of(old(self)@, other)
                },
            },
    {
        let ghost before = self@;
        let place: usize = self.place_of(name);
        if place < self.points.len() && text_eq(self.points[place].name.as_str(), name) {
            let mut counters = self.points[place].counters;
            let result = counters.observe(reference, candidate);
            self.points[place].counters = counters;
            proof {
                lemma_counters_at(before, place as int);
                assert(self@ =~= before.update(place as int, (name@, counters)));
                assert(self@[place as int] == (name@, counters));
                assert forall|i: int|
                    0 <= i < before.len() && (#[trigger] before[i]).0 != name@ implies self@.contains(
                    before[i],
                ) by {
                    assert(self@[i] == before[i]);
                }
                assert forall|k: int|
                    0 <= k < self@.len() && (#[trigger] self@[k]).0 != name@ implies before.contains(
                    self@[k],
                ) by {
                    assert(before[k] == self@[k]);
                }
                assert forall|other: Seq<char>| #[trigger] counters_of(self@, other) == (if other
                    == name@ {
                    counters
                } else {
                    counters_of(before, other)
                }) by {
                    lemma_counters_after(before, name@, counters, self@, other);
                }
                assert forall|other: Seq<char>| #[trigger] holds_name(self@, other) == (holds_name(
                    before,
                    other,
                ) || other == name@) by {
                    lemma_names_after(before, name@, counters, self@, other);
                }
            }
            result
        } else {
            let mut counters = PointCounters { observations: 0, values: 0, non_finite_values: 0 };
            let result = counters.observe(reference, candidate);
            self.points.insert(place, PropagationPoint { name: name.to_owned(), counters });
            proof {
                assert(self@ =~= before.insert(place as int, (name@, counters)));
                lemma_insertion_in_order(before, name@, counters, place as int);
                assert(counters_of(before, name@) == PointCounters::zero()) by {
                    assert forall|i: int| !is_counted(before, name@, i) by {
                        if is_counted(before, name@, i) {
                            if i < place {
                                lemma_before_is_strict(before[i].0, name@);
                            } else if i > place {
                                assert(text_before(before[place as int].0, before[i].0));
                            }
                        }
                    }
                }
                assert forall|other: Seq<char>| #[trigger] counters_of(self@, other) == (if other
                    == name@ {
                    counters
                } else {
                    counters_of(before, other)
                }) by {
                    lemma_counters_after(before, name@, counters, self@, other);
                }
                assert forall|other: Seq<char>| #[trigger] holds_name(self@, other) == (holds_name(
                    before,
                    other,
                ) || other == name@) by {
                    lemma_names_after(before, name@, counters, self@, other);
                }
            }
            result
        }
    }

    fn place_of(&self, name: &str) -> (r: usize)
        requires
            counters_in_order(self@),
        ensures
            is_counter_place(self@, name@, r as int),
    {
        let mut place: usize = 0;
        while place < self.points.len() && text_precedes(self.points[place].name.as_str(), name)
            invariant
                place <= self.points@.len(),
                forall|i: int| 0 <= i < place ==> text_before((#[trigger] self@[i]).0, name@),
            decreases self.points@.len() - place,
        {
            assert(self@[place as int].0 == self.points@[place as int].name@);
            place = place + 1;
        }
        proof {
            if place < self@.len() {
                assert(!text_before(self@[place as int].0, name@));
                assert forall|i: int| place <= i < self@.len() implies !text_before(
                    (#[trigger] self@[i]).0,
                    name@,
                ) by {
                    if i > place && text_before(self@[i].0, name@) {
                        lemma_text_transitive(self@[place as int].0, self@[i].0, name@);
                    }
                }
            }
        }
        place
    }

    /// Compares the captures of one pass, in the order of the reference's names, and gives
    /// for every point the positions that its sums run over. Every point that is reached is
    /// entered under its name before its rows are compared, also one whose rows differ in
    /// shape.
    pub fn observe(&mut self, reference: &HiddenCapture, candidate: &HiddenCapture) -> (r: Result<
        Vec<Vec<usize>>,
        EvaluationError,
    >)
        requires
            counters_in_order(old(self)@),
            in_name_order(reference@),
            in_name_order(candidate@),
        ensures
            counters_in_order(final(self)@),
            match r {
                Ok(positions) => {
                    &&& reference@.len() == candidate@.len()
                    &&& all_comparable(reference@, candidate@)
                    &&& positions@.len() == reference@.len()
                    &&& forall|i: int|
                        0 <= i < reference@.len() ==> (#[trigger] positions@[i])@
                            == finite_positions(
                            reference@[i].values,
                            row_of(candidate@, reference@[i].name),
                            reference@[i].values.len() as int,
                        )
                    &&& counted(
                        old(self)@,
                        reference@,
                        candidate@,
                        reference@.len() as int,
                        final(self)@,
                    )
                    &&& names_entered(
                        old(self)@,
                        reference@,
                        reference@.len() as int,
                        final(self)@,
                    )
                },
                Err(EvaluationError::PointCount) => reference@.len() != candidate@.len() && final(
                    self)@ == old(self)@,
                Err(EvaluationError::MissingPoint(name)) => {
                    &&& reference@.len() == candidate@.len()
                    &&& exists|i: int|
                        {
                            &&& #[trigger] stops_at(reference@, candidate@, i)
                            &&& reference@[i].name == name@
                            &&& !has_point(candidate@, name@)
                            &&& counted(old(self)@, reference@, candidate@, i, final(self)@)
                            &&& names_entered(old(self)@, reference@, i, final(self)@)
                        }
                },
                Err(e) => {
                    &&& e == EvaluationError::ShapeMismatch
                    &&& reference@.len() == candidate@.len()
                    &&& exists|i: int|
                        {
                            &&& #[trigger] stops_at(reference@, candidate@, i)
                            &&& has_point(candidate@, reference@[i].name)
                            &&& counted(old(self)@, reference@, candidate@, i, final(self)@)
                            &&& names_entered(old(self)@, reference@, i + 1, final(self)@)
                        }
                },
            },
    {
        if reference.points.len() != candidate.points.len() {
            return Err(EvaluationError::PointCount);
        }
        let mut all: Vec<Vec<usize>> = Vec::new();
        let mut index: usize = 0;
        proof {
            assert(reference@.take(0) =~= Seq::<PointView>::empty());
        }
        while index < reference.points.len()
            invariant
                index <= reference.points@.len(),
                reference@.len() == candidate@.len(),
                counters_in_order(self@),
                in_name_order(reference@),
                in_name_order(candidate@),
                counted(old(self)@, reference@, candidate@, index as int, self@),
                names_entered(old(self)@, reference@, index as int, self@),
                forall|i: int|
                    0 <= i < index ==> #[trigger] is_comparable(reference@, candidate@, i),
                all@.len() == index,
                forall|i: int|
                    0 <= i < index ==> (#[trigger] all@[i])@ == finite_positions(
                        reference@[i].values,
                        row_of(candidate@, reference@[i].name),
                        reference@[i].values.len() as int,
                    ),
            decreases reference.points@.len() - index,
        {
            let point = &reference.points[index];
            assert(reference@[index as int] == point@);
            let found = match candidate.index_of(point.name.as_str()) {
                Some(found) => found,
                None => {
                    proof {
                        assert(!has_point(candidate@, point.name@));
                        assert(stops_at(reference@, candidate@, index as int));
                    }
                    return Err(EvaluationError::MissingPoint(point.name.as_str().to_owned()));
                },
            };
            proof {
                lemma_row_is_unique(candidate@, found as int);
            }
            let ghost before = self@;
            let row = &candidate.points[found];
            assert(candidate@[found as int] == row@);
            let observed = self.observe_point(
                point.name.as_str(),
                point.values.as_slice(),
                row.values.as_slice(),
            );
            proof {
                lemma_names_one_more(old(self)@, reference@, index as int, before, self@);
            }
            match observed {
                Ok(positions) => {
                    all.push(positions);
                    proof {
                        assert(is_comparable(reference@, candidate@, index as int));
                        lemma_counted_one_more(
                            old(self)@,
                            reference@,
                            candidate@,
                            index as int,
                            before,
                            self@,
                        );
                    }
                },
                Err(e) => {
                    assert(stops_at(reference@, candidate@, index as int));
                    return Err(e);
                },
            }
            index = index + 1;
        }
        assert(reference@.take(index as int) =~= reference@);
        Ok(all)
    }
}

/// How many of the first `upto` values on the left occur on the right.
pub open spec fn shared(left: Seq<usize>, right: Seq<usize>, upto: int) -> int
    decreases upto,
{
    if upto <= 0 {
        0
    } else {
        shared(left, right, upto - 1) + if right.contains(left[upto - 1]) {
            1int
        } else {
            0int
        }
    }
}

fn holds(values: &[usize], value: usize) -> (r: bool)
    ensures
        r == values@.contains(value),
{
    let mut index: usize = 0;
    while index < values.len()
        invariant
            index <= values@.len(),
            forall|i: int| 0 <= i < index ==> values@[i] != value,
        decreases values@.len() - index,
    {
        if values[index] == value {
            assert(values@[index as int] == value);
            return true;
        }
        index = index + 1;
    }
    false
}

/// How many values on the left occur on the right.
pub fn overlap(left: &[usize], right: &[usize]) -> (r: usize)
    ensures
        r == shared(left@, right@, left@.len() as int),
{
    let mut count: usize = 0;
    let mut index: usize = 0;
    while index < left.len()
        invariant
            index <= left@.len(),
            count <= index,
            count == shared(left@, right@, index as int),
        decreases left@.len() - index,
    {
        if holds(right, left[index]) {
            count = count + 1;
        }
        index = index + 1;
    }
    count
}

/// A list shares all of its values with itself.
pub proof fn overlap_with_itself_is_full(values: Seq<usize>, upto: int)
    requires
        0 <= upto <= values.len(),
    ensures
        shared(values, values, upto) == upto,
    decreases upto,
{
    if upto > 0 {
        overlap_with_itself_is_full(values, upto - 1);
        assert(values.contains(values[upto - 1]));
    }
}

/// Position `a` comes before position `b` among the largest scores: its score is larger, or
/// the scores are equal and it comes first.
pub open spec fn scores_before(scores: Seq<F32>, a: int, b: int) -> bool {
    scores[a].order() > scores[b].order() || scores[a].order() == scores[b].order() && a < b
}

/// The places of `top` that hold a position.
pub open spec fn filled(scores: Seq<F32>, count: int) -> int {
    min_int(scores.len() as int, count)
}

/// `top` lists the `count` positions with the largest scores, largest first; the places
/// that no position is left for hold the largest index.
pub open spec fn is_top_list(scores: Seq<F32>, count: int, top: Seq<usize>) -> bool {
    &&& top.len() == count
    &&& forall|i: int| 0 <= i < filled(scores, count) ==> #[trigger] top[i] < scores.len()
    &&& forall|i: int| filled(scores, count) <= i < count ==> #[trigger] top[i] == usize::MAX
    &&& forall|i: int, j: int|
        0 <= i < j < filled(scores, count) ==> scores_before(
            scores,
            #[trigger] top[i] as int,
            #[trigger] top[j] as int,
        )
    &&& forall|p: int, i: int|
        0 <= p < scores.len() && 0 <= i < filled(scores, count) && !lists(
            top,
            filled(scores, count),
            p,
        ) ==> #[trigger] scores_before(scores, top[i] as int, p)
}

/// `position` is in one of the first `upto` places.
pub open spec fn lists(top: Seq<usize>, upto: int, position: int) -> bool {
    exists|i: int| 0 <= i < upto && #[trigger] top[i] == position
}

/// The same over the filled places alone.
spec fn is_top_prefix(scores: Seq<F32>, count: int, top: Seq<usize>) -> bool {
    &&& top.len() == filled(scores, count)
    &&& top.len() == scores.len() ==> forall|p: int|
        0 <= p < scores.len() ==> #[trigger] lists(top, top.len() as int, p)
    &&& forall|i: int| 0 <= i < top.len() ==> #[trigger] top[i] < scores.len()
    &&& forall|i: int, j: int|
        0 <= i < j < top.len() ==> scores_before(
            scores,
            #[trigger] top[i] as int,
            #[trigger] top[j] as int,
        )
    &&& forall|p: int, i: int|
        0 <= p < scores.len() && 0 <= i < top.len() && !lists(top, top.len() as int, p)
            ==> #[trigger] scores_before(scores, top[i] as int, p)
}

fn widen_all(values: &[Bf16]) -> (r: Vec<F32>)
    ensures
        r@ == widened_all(values@),
{
    let mut r: Vec<F32> = Vec::new();
    let mut index: usize = 0;
    while index < values.len()
        invariant
            index <= values@.len(),
            r@ == widened_all(values@.take(index as int)),
        decreases values@.len() - index,
    {
        r.push(widen(values[index]));
        index = index + 1;
        assert(r@ =~= widened_all(values@.take(index as int)));
    }
    assert(values@.take(index as int) =~= values@);
    r
}

pub open spec fn widened_all(values: Seq<Bf16>) -> Seq<F32> {
    Seq::new(values.len(), |i: int| values[i].widened())
}

proof fn lemma_top_insert(
    scores: Seq<F32>,
    count: int,
    next: int,
    before: Seq<usize>,
    place: int,
    after: Seq<usize>,
)
    requires
        0 <= next < scores.len(),
        next <= usize::MAX,
        count > 0,
        is_top_prefix(scores.take(next), count, before),
        0 <= place <= before.len(),
        place < count,
        after == (if before.len() == count {
            before.insert(place, next as usize).take(count)
        } else {
            before.insert(place, next as usize)
        }),
        forall|i: int|
            place <= i < before.len() ==> scores[next].order()
                > scores[#[trigger] before[i] as int].order(),
        place > 0 ==> scores[next].order() <= scores[before[place - 1] as int].order(),
    ensures
        is_top_prefix(scores.take(next + 1), count, after),
{
    let sofar = scores.take(next);
    let upto = scores.take(next + 1);
    let full = before.insert(place, next as usize);
    assert forall|i: int| 0 <= i < before.len() implies #[trigger] before[i] < next
        && upto[before[i] as int] == sofar[before[i] as int] && upto[before[i] as int]
        == scores[before[i] as int] by {}
    assert forall|i: int| 0 <= i < place implies scores[next].order()
        <= scores[#[trigger] before[i] as int].order() by {
        if i < place - 1 {
            assert(scores_before(sofar, before[i] as int, before[place - 1] as int));
        }
    }
    assert forall|i: int| 0 <= i < after.len() implies #[trigger] after[i] < upto.len() by {
        if i < place {
            assert(after[i] == before[i]);
        } else if i > place {
            assert(after[i] == before[i - 1]);
        }
    }
    assert forall|i: int, j: int| 0 <= i < j < after.len() implies scores_before(
        upto,
        #[trigger] after[i] as int,
        #[trigger] after[j] as int,
    ) by {
        if i < place && j < place {
            assert(after[i] == before[i] && after[j] == before[j]);
            assert(scores_before(sofar, before[i] as int, before[j] as int));
        } else if i < place && j == place {
            assert(after[i] == before[i] && after[j] == next);
        } else if i < place {
            assert(after[i] == before[i] && after[j] == before[j - 1]);
            assert(scores_before(sofar, before[i] as int, before[j - 1] as int));
        } else if i == place {
            assert(after[i] == next && after[j] == before[j - 1]);
        } else {
            assert(after[i] == before[i - 1] && after[j] == before[j - 1]);
            assert(scores_before(sofar, before[i - 1] as int, before[j - 1] as int));
        }
    }
    assert(after[place] == next);
    if after.len() == upto.len() {
        assert forall|p: int| 0 <= p < upto.len() implies #[trigger] lists(
            after,
            after.len() as int,
            p,
        ) by {
            if p < next {
                assert(lists(before, before.len() as int, p));
                let k = choose|k: int| 0 <= k < before.len() && #[trigger] before[k] == p;
                if k < place {
                    assert(after[k] == p);
                } else {
                    assert(after[k + 1] == p);
                }
            }
        }
    }
    assert forall|p: int, i: int|
        0 <= p < upto.len() && 0 <= i < after.len() && !lists(
            after,
            after.len() as int,
            p,
        ) implies #[trigger] scores_before(upto, after[i] as int, p) by {
        assert(p != next);
        if lists(before, before.len() as int, p) {
            let k = choose|k: int| 0 <= k < before.len() && #[trigger] before[k] == p;
            if k < place {
                assert(after[k] == p);
            } else if k + 1 < after.len() {
                assert(after[k + 1] == p);
            }
            assert(k + 1 == count && before.len() == count);
            if i < place {
                assert(after[i] == before[i]);
                assert(scores_before(sofar, before[i] as int, before[k] as int));
            } else if i > place {
                assert(after[i] == before[i - 1]);
                assert(scores_before(sofar, before[i - 1] as int, before[k] as int));
            }
        } else {
            if i < place {
                assert(after[i] == before[i]);
                assert(scores_before(sofar, before[i] as int, p));
            } else if i > place {
                assert(after[i] == before[i - 1]);
                assert(scores_before(sofar, before[i - 1] as int, p));
            } else {
                assert(before.len() == count);
                assert(scores_before(sofar, before[count - 1] as int, p));
            }
        }
    }
}

proof fn lemma_top_skip(scores: Seq<F32>, count: int, next: int, top: Seq<usize>)
    requires
        0 <= next < scores.len(),
        count > 0,
        is_top_prefix(scores.take(next), count, top),
        top.len() == count,
        scores[next].order() <= scores[top[count - 1] as int].order(),
    ensures
        is_top_prefix(scores.take(next + 1), count, top),
{
    let sofar = scores.take(next);
    let upto = scores.take(next + 1);
    assert forall|i: int, j: int| 0 <= i < j < top.len() implies scores_before(
        upto,
        #[trigger] top[i] as int,
        #[trigger] top[j] as int,
    ) by {
        assert(scores_before(sofar, top[i] as int, top[j] as int));
    }
    assert forall|p: int, i: int|
        0 <= p < upto.len() && 0 <= i < top.len() && !lists(
            top,
            top.len() as int,
            p,
        ) implies #[trigger] scores_before(upto, top[i] as int, p) by {
        if p < next {
            assert(scores_before(sofar, top[i] as int, p));
        } else if i < count - 1 {
            assert(scores_before(sofar, top[i] as int, top[count - 1] as int));
        }
    }
}

/// The positions of the `count` largest scores, largest first, equal scores in their order.
pub fn top_indices(scores: &[F32], count: usize) -> (r: Vec<usize>)
    requires
        count > 0,
        forall|i: int| 0 <= i < scores@.len() ==> (#[trigger] scores@[i]).finite(),
    ensures
        is_top_list(scores@, count as int, r@),
{
    let mut top: Vec<usize> = Vec::new();
    let mut next: usize = 0;
    while next < scores.len()
        invariant
            next <= scores@.len(),
            count > 0,
            forall|i: int| 0 <= i < scores@.len() ==> (#[trigger] scores@[i]).finite(),
            is_top_prefix(scores@.take(next as int), count as int, top@),
        decreases scores@.len() - next,
    {
        let ghost before = top@;
        if top.len() == count && scores[top[count - 1]].at_least(scores[next]) {
            proof {
                lemma_top_skip(scores@, count as int, next as int, before);
            }
        } else {
            let mut place: usize = top.len();
            while place > 0 && !scores[top[place - 1]].at_least(scores[next])
                invariant
                    place <= top@.len(),
                    top@ == before,
                    next < scores@.len(),
                    forall|i: int| 0 <= i < scores@.len() ==> (#[trigger] scores@[i]).finite(),
                    is_top_prefix(scores@.take(next as int), count as int, before),
                    forall|i: int|
                        place <= i < before.len() ==> scores@[next as int].order()
                            > scores@[#[trigger] before[i] as int].order(),
                decreases place,
            {
                place = place - 1;
            }
            let full = top.len() == count;
            top.insert(place, next);
            if full {
                top.truncate(count);
                assert(top@ =~= before.insert(place as int, next).take(count as int));
            }
            proof {
                lemma_top_insert(
                    scores@,
                    count as int,
                    next as int,
                    before,
                    place as int,
                    top@,
                );
            }
        }
        next = next + 1;
    }
    let ghost prefix = top@;
    assert(scores@.take(next as int) =~= scores@);
    while top.len() < count
        invariant
            prefix.len() <= top@.len() <= count,
            top@.take(prefix.len() as int) == prefix,
            forall|i: int| prefix.len() <= i < top@.len() ==> #[trigger] top@[i] == usize::MAX,
        decreases count - top@.len(),
    {
        let ghost earlier = top@;
        top.push(usize::MAX);
        assert(top@.take(prefix.len() as int) =~= earlier.take(prefix.len() as int));
    }
    proof {
        assert forall|i: int| 0 <= i < prefix.len() implies #[trigger] top@[i] == prefix[i] by {
            assert(top@.take(prefix.len() as int)[i] == top@[i]);
        }
        assert forall|p: int, i: int|
            0 <= p < scores@.len() && 0 <= i < prefix.len() && !lists(
                top@,
                prefix.len() as int,
                p,
            ) implies #[trigger] scores_before(scores@, top@[i] as int, p) by {
            if lists(prefix, prefix.len() as int, p) {
                let k = choose|k: int| 0 <= k < prefix.len() && #[trigger] prefix[k] == p;
                assert(top@[k] == p);
            }
            assert(scores_before(scores@, prefix[i] as int, p));
        }
    }
    top
}

/// What one pair of logit rows contributes.
#[derive(Debug)]
pub enum LogitStep {
    /// Some logit is not finite: nothing is measured.
    NonFinite,
    Measured {
        /// The largest logits, which the exponentials are taken against.
        reference_maximum: F32,
        candidate_maximum: F32,
        top1_agrees: bool,
        /// How many of the five and ten largest positions agree.
        top5_overlap: usize,
        top10_overlap: usize,
    },
}

/// Counters over all pairs of logit rows.
#[derive(Clone, Copy, Debug, PartialEq, Eq, Structural)]
pub struct LogitMetricAccumulator {
    pub observations: u64,
    pub top1_agreements: u64,
    pub non_finite_logits: u64,
}

impl LogitMetricAccumulator {
    pub fn new() -> (r: Self)
        ensures
            r.observations == 0,
            r.top1_agreements == 0,
            r.non_finite_logits == 0,
    {
        LogitMetricAccumulator { observations: 0, top1_agreements: 0, non_finite_logits: 0 }
    }

    /// Takes in a pair of logit rows and the token that followed.
    pub fn observe(&mut self, reference: &[Bf16], candidate: &[Bf16], target: u32) -> (r: Result<
        LogitStep,
        EvaluationError,
    >)
        ensures
            ({
                let n = reference@.len() as int;
                let finite = finite_positions(reference@, candidate@, n).len() as int;
                if n == 0 || n != candidate@.len() {
                    r == Err::<LogitStep, EvaluationError>(EvaluationError::ShapeMismatch)
                        && *final(self) == *old(self)
                } else if target >= n {
                    r == Err::<LogitStep, EvaluationError>(EvaluationError::TargetOutsideVocabulary)
                        && *final(self) == *old(self)
                } else if finite < n {
                    &&& r == Ok::<LogitStep, EvaluationError>(LogitStep::NonFinite)
                    &&& *final(self) == (LogitMetricAccumulator {
                        non_finite_logits: min_int(
                            old(self).non_finite_logits + (n - finite),
                            u64::MAX as int,
                        ) as u64,
                        ..*old(self)
                    })
                } else {
                    &&& r is Ok
                    &&& r->Ok_0 is Measured
                    &&& is_measured(
                        widened_all(reference@),
                        widened_all(candidate@),
                        r->Ok_0,
                    )
                    &&& *final(self) == (LogitMetricAccumulator {
                        observations: old(self).observations.saturating_add(1),
                        top1_agreements: if r->Ok_0->top1_agrees {
                            old(self).top1_agreements.saturating_add(1)
                        } else {
                            old(self).top1_agreements
                        },
                        ..*old(self)
                    })
                }
            }),
    {
        let compared = match compare_outputs(reference, candidate) {
            Ok(compared) => compared,
            Err(_) => {
                return Err(EvaluationError::ShapeMismatch);
            },
        };
        let length: usize = reference.len();
        if target as usize >= length {
            return Err(EvaluationError::TargetOutsideVocabulary);
        }
        if compared.non_finite_values > 0 {
            self.non_finite_logits = self.non_finite_logits.saturating_add(
                compared.non_finite_values as u64,
            );
            return Ok(LogitStep::NonFinite);
        }
        proof {
            lemma_all_finite(reference@, candidate@, length as int);
        }
        let left = widen_all(reference);
        let right = widen_all(candidate);
        let reference_at: usize = match last_maximum(left.as_slice()) {
            Ok(index) => index,
            Err(_) => 0,
        };
        let candidate_at: usize = match last_maximum(right.as_slice()) {
            Ok(index) => index,
            Err(_) => 0,
        };
        let reference_top = top_indices(left.as_slice(), 10);
        let candidate_top = top_indices(right.as_slice(), 10);
        let top1_agrees = reference_top[0] == candidate_top[0];
        let top5_overlap: usize = overlap(
            vstd::slice::slice_subrange(reference_top.as_slice(), 0, 5),
            vstd::slice::slice_subrange(candidate_top.as_slice(), 0, 5),
        );
        let top10_overlap: usize = overlap(reference_top.as_slice(), candidate_top.as_slice());
        if top1_agrees {
            self.top1_agreements = self.top1_agreements.saturating_add(1);
        }
        self.observations = self.observations.saturating_add(1);
        let step = LogitStep::Measured {
            reference_maximum: left[reference_at],
            candidate_maximum: right[candidate_at],
            top1_agrees,
            top5_overlap,
            top10_overlap,
        };
        proof {
            assert(is_measured_by(left@, right@, step, reference_top@, candidate_top@));
        }
        Ok(step)
    }

    /// Whether there is anything to report.
    pub fn finish(&self) -> (r: Result<u64, EvaluationError>)
        ensures
            r == (if self.observations > 0 {
                Ok::<u64, EvaluationError>(self.observations)
            } else {
                Err::<u64, EvaluationError>(EvaluationError::NoObservations)
            }),
    {
        if self.observations > 0 {
            Ok(self.observations)
        } else {
            Err(EvaluationError::NoObservations)
        }
    }
}

proof fn lemma_all_finite(reference: Seq<Bf16>, candidate: Seq<Bf16>, upto: int)
    requires
        0 <= upto <= reference.len(),
        finite_positions(reference, candidate, upto).len() == upto,
    ensures
        forall|i: int|
            0 <= i < upto ==> (#[trigger] reference[i]).finite() && reference[i].widened().finite(),
        forall|i: int|
            0 <= i < upto ==> (#[trigger] candidate[i]).finite() && candidate[i].widened().finite(),
    decreases upto,
{
    if upto > 0 {
        lemma_finite_count(reference, candidate, upto - 1);
        lemma_all_finite(reference, candidate, upto - 1);
    }
}

proof fn lemma_finite_count(reference: Seq<Bf16>, candidate: Seq<Bf16>, upto: int)
    requires
        0 <= upto,
    ensures
        finite_positions(reference, candidate, upto).len() <= upto,
    decreases upto,
{
    if upto > 0 {
        lemma_finite_count(reference, candidate, upto - 1);
    }
}

/// `step` measures two rows of finite scores.
pub open spec fn is_measured(reference: Seq<F32>, candidate: Seq<F32>, step: LogitStep) -> bool {
    exists|left: Seq<usize>, right: Seq<usize>|
        is_measured_by(reference, candidate, step, left, right)
}

/// `step` measures two rows of finite scores, whose ten largest positions are `left` and
/// `right`.
pub open spec fn is_measured_by(
    reference: Seq<F32>,
    candidate: Seq<F32>,
    step: LogitStep,
    left: Seq<usize>,
    right: Seq<usize>,
) -> bool {
    &&& is_top_list(reference, 10, left)
    &&& is_top_list(candidate, 10, right)
    &&& is_maximum_of(reference, step->reference_maximum)
    &&& is_maximum_of(candidate, step->candidate_maximum)
    &&& step->top1_agrees == (left[0] == right[0])
    &&& step->top5_overlap == shared(left.take(5), right.take(5), 5)
    &&& step->top10_overlap == shared(left, right, 10)
}

pub open spec fn is_maximum_of(scores: Seq<F32>, maximum: F32) -> bool {
    exists|index: int| #[trigger] is_last_maximum(scores, index) && scores[index] == maximum
}

/// The largest positions of a row of scores are determined by the scores.
pub proof fn top_list_is_unique(scores: Seq<F32>, count: int, a: Seq<usize>, b: Seq<usize>)
    requires
        count >= 0,
        scores.len() <= usize::MAX,
        is_top_list(scores, count, a),
        is_top_list(scores, count, b),
    ensures
        a == b,
{
    lemma_same_top(scores, count, a, b, filled(scores, count));
    assert(a =~= b);
}

proof fn lemma_same_top(scores: Seq<F32>, count: int, a: Seq<usize>, b: Seq<usize>, upto: int)
    requires
        0 <= upto <= filled(scores, count),
        is_top_list(scores, count, a),
        is_top_list(scores, count, b),
    ensures
        forall|i: int| 0 <= i < upto ==> #[trigger] a[i] == b[i],
    decreases upto,
{
    if upto > 0 {
        lemma_same_top(scores, count, a, b, upto - 1);
        let m = filled(scores, count);
        let i = upto - 1;
        if a[i] != b[i] {
            // Each of the two comes before the other: in one list or in the other, or
            // because it is not listed there.
            lemma_comes_first(scores, count, a, b, i);
            lemma_comes_first(scores, count, b, a, i);
        }
    }
}

proof fn lemma_comes_first(scores: Seq<F32>, count: int, a: Seq<usize>, b: Seq<usize>, i: int)
    requires
        0 <= i < filled(scores, count),
        is_top_list(scores, count, a),
        is_top_list(scores, count, b),
        forall|k: int| 0 <= k < i ==> #[trigger] a[k] == b[k],
        a[i] != b[i],
    ensures
        scores_before(scores, a[i] as int, b[i] as int),
{
    let m = filled(scores, count);
    if lists(a, m, b[i] as int) {
        let k = choose|k: int| 0 <= k < m && #[trigger] a[k] == b[i];
        if k < i {
            assert(b[k] == b[i]);
            assert(scores_before(scores, b[k] as int, b[i] as int));
        }
        assert(scores_before(scores, a[i] as int, a[k] as int));
    } else {
        assert(scores_before(scores, a[i] as int, b[i] as int));
    }
}

} // verus!
