//! Rankings: positions of a list in the order of their keys.
use vstd::prelude::*;

use vstd::string::StrSliceExecFns;

verus! {

/// Position `a` ranks before position `b`: its key is larger, or the keys are equal and it
/// comes first.
pub open spec fn ranks_before(keys: Seq<i64>, a: int, b: int) -> bool {
    keys[a] > keys[b] || keys[a] == keys[b] && a < b
}

/// `order` holds every position once, larger keys first and equal keys in their own order.
pub open spec fn is_ranking(keys: Seq<i64>, order: Seq<usize>) -> bool {
    &&& order.len() == keys.len()
    &&& forall|i: int| 0 <= i < order.len() ==> #[trigger] order[i] < keys.len()
    &&& forall|i: int, j: int|
        0 <= i < j < order.len() ==> ranks_before(
            keys,
            #[trigger] order[i] as int,
            #[trigger] order[j] as int,
        )
    &&& forall|p: int| 0 <= p < keys.len() ==> #[trigger] ranks_somewhere(order, p)
}

pub open spec fn ranks_somewhere(order: Seq<usize>, position: int) -> bool {
    exists|i: int| 0 <= i < order.len() && #[trigger] order[i] == position
}

/// Ranks all positions by their keys, largest first. Equal keys stay in their order.
pub fn rank_descending(keys: &Vec<i64>) -> (r: Vec<usize>)
    ensures
        is_ranking(keys@, r@),
{
    let mut order: Vec<usize> = Vec::new();
    let mut next: usize = 0;
    assert(keys@.take(0) =~= Seq::<i64>::empty());
    while next < keys.len()
        invariant
            next <= keys@.len(),
            is_ranking(keys@.take(next as int), order@),
        decreases keys@.len() - next,
    {
        let ghost sofar = keys@.take(next as int);
        let ghost upto = keys@.take(next + 1);
        let ghost before = order@;
        let mut place: usize = order.len();
        while place > 0 && keys[next] > keys[order[place - 1]]
            invariant
                place <= order@.len(),
                next < keys@.len(),
                sofar == keys@.take(next as int),
                order@ == before,
                is_ranking(sofar, order@),
                forall|i: int| place <= i < order@.len() ==> keys@[next as int]
                    > keys@[#[trigger] order@[i] as int],
            decreases place,
        {
            assert(order@[place - 1] < sofar.len());
            assert(sofar[order@[place - 1] as int] == keys@[order@[place - 1] as int]);
            place = place - 1;
        }
        order.insert(place, next);
        proof {
            assert forall|i: int| 0 <= i < before.len() implies (#[trigger] before[i]) < sofar.len()
                && upto[before[i] as int] == sofar[before[i] as int] by {}
            assert forall|i: int, j: int| 0 <= i < j < order@.len() implies ranks_before(
                upto,
                #[trigger] order@[i] as int,
                #[trigger] order@[j] as int,
            ) by {
                if i < place && j < place {
                    assert(ranks_before(sofar, before[i] as int, before[j] as int));
                } else if i < place && j == place {
                    if i < place - 1 {
                        assert(ranks_before(sofar, before[i] as int, before[place - 1] as int));
                    }
                } else if i < place {
                    assert(ranks_before(sofar, before[i] as int, before[j - 1] as int));
                } else if i == place {
                    assert(order@[j] == before[j - 1]);
                } else {
                    assert(ranks_before(sofar, before[i - 1] as int, before[j - 1] as int));
                }
            }
            assert forall|p: int| 0 <= p < upto.len() implies #[trigger] ranks_somewhere(
                order@,
                p,
            ) by {
                if p == next {
                    assert(order@[place as int] == p);
                } else {
                    assert(ranks_somewhere(before, p));
                    let i = choose|i: int| 0 <= i < before.len() && #[trigger] before[i] == p;
                    if i < place {
                        assert(order@[i] == p);
                    } else {
                        assert(order@[i + 1] == p);
                    }
                }
            }
        }
        next = next + 1;
    }
    assert(keys@.take(next as int) =~= keys@);
    order
}

/// A list of keys has only one ranking.
pub proof fn ranking_is_unique(keys: Seq<i64>, a: Seq<usize>, b: Seq<usize>)
    requires
        is_ranking(keys, a),
        is_ranking(keys, b),
    ensures
        a == b,
{
    assert forall|i: int| 0 <= i < a.len() implies a[i] == b[i] by {
        lemma_same_prefix(keys, a, b, i + 1);
    }
    assert(a =~= b);
}

proof fn lemma_same_prefix(keys: Seq<i64>, a: Seq<usize>, b: Seq<usize>, upto: int)
    requires
        is_ranking(keys, a),
        is_ranking(keys, b),
        0 <= upto <= a.len(),
    ensures
        forall|i: int| 0 <= i < upto ==> #[trigger] a[i] == b[i],
    decreases upto,
{
    if upto > 0 {
        let k = upto - 1;
        lemma_same_prefix(keys, a, b, k);
        assert(ranks_somewhere(b, a[k] as int));
        assert(ranks_somewhere(a, b[k] as int));
        let in_b = choose|i: int| 0 <= i < b.len() && #[trigger] b[i] == a[k] as int;
        let in_a = choose|i: int| 0 <= i < a.len() && #[trigger] a[i] == b[k] as int;
        if in_b < k {
            assert(a[in_b] == b[in_b]);
            assert(ranks_before(keys, a[in_b] as int, a[k] as int));
        }
        if in_a < k {
            assert(a[in_a] == b[in_a]);
            assert(ranks_before(keys, b[in_a] as int, b[k] as int));
        }
        if in_b > k && in_a > k {
            assert(ranks_before(keys, b[k] as int, b[in_b] as int));
            assert(ranks_before(keys, a[k] as int, a[in_a] as int));
        }
    }
}

/// Dictionary order by code points.
pub open spec fn text_before(a: Seq<char>, b: Seq<char>) -> bool
    decreases a.len(),
{
    if b.len() == 0 {
        false
    } else if a.len() == 0 {
        true
    } else if a[0] != b[0] {
        a[0] < b[0]
    } else {
        text_before(a.skip(1), b.skip(1))
    }
}

/// Whether `a` comes before `b` in the dictionary.
pub fn text_precedes(a: &str, b: &str) -> (r: bool)
    ensures
        r == text_before(a@, b@),
{
    let a_length: usize = a.unicode_len();
    let b_length: usize = b.unicode_len();
    let mut index: usize = 0;
    assert(a@.skip(0) =~= a@);
    assert(b@.skip(0) =~= b@);
    loop
        invariant
            a_length == a@.len(),
            b_length == b@.len(),
            index <= a_length,
            index <= b_length,
            text_before(a@, b@) == text_before(a@.skip(index as int), b@.skip(index as int)),
        decreases a_length - index,
    {
        if index == b_length {
            return false;
        }
        if index == a_length {
            return true;
        }
        let left: u32 = a.get_char(index) as u32;
        let right: u32 = b.get_char(index) as u32;
        if left != right {
            return left < right;
        }
        assert(a@.skip(index as int).skip(1) =~= a@.skip(index + 1));
        assert(b@.skip(index as int).skip(1) =~= b@.skip(index + 1));
        index = index + 1;
    }
}

/// Two different texts have exactly one order.
pub proof fn text_order_is_total(a: Seq<char>, b: Seq<char>)
    ensures
        a != b ==> text_before(a, b) != text_before(b, a),
        a == b ==> !text_before(a, b),
    decreases a.len(),
{
    if a.len() > 0 && b.len() > 0 && a[0] == b[0] {
        text_order_is_total(a.skip(1), b.skip(1));
        if a != b {
            assert(a.skip(1) != b.skip(1)) by {
                if a.skip(1) == b.skip(1) {
                    assert(a =~= seq![a[0]] + a.skip(1));
                    assert(b =~= seq![b[0]] + b.skip(1));
                }
            }
        }
    } else if a.len() == 0 && b.len() == 0 {
        assert(a =~= b);
    }
}

} // verus!
