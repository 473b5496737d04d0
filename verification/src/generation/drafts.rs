//! What a draft is, told without the search that finds it.
use vstd::prelude::*;

use crate::generation::ngram_drafter::{
    continuation, depth_limit, frequency, is_best_occurrence, is_occurrence, recurrence, recurs,
    NgramDrafter,
};

verus! {

/// The last `n` tokens of the history also stand at `i`, with at least one token behind them.
pub open spec fn repeats_at(history: Seq<u32>, n: int, i: int) -> bool {
    &&& 0 <= i
    &&& i + n < history.len()
    &&& forall|k: int|
        0 <= k < n ==> #[trigger] history[i + k] == history[history.len() - n + k]
}

/// Some earlier stretch of the history is equal to its last `n` tokens.
pub open spec fn suffix_repeats(history: Seq<u32>, n: int) -> bool {
    exists|i: int| #[trigger] repeats_at(history, n, i)
}

/// `n` is the length of the longest repeated suffix, among those from `shortest` to `longest`
/// tokens that leave something of the history over.
pub open spec fn is_longest_repeat(history: Seq<u32>, shortest: int, longest: int, n: int) -> bool {
    &&& shortest <= n <= longest
    &&& n < history.len()
    &&& suffix_repeats(history, n)
    &&& forall|m: int|
        n < m <= longest && m < history.len() ==> !#[trigger] suffix_repeats(history, m)
}

/// The shortest suffix that is looked for: at least one token.
pub open spec fn first_length(min_ngram: usize) -> int {
    if min_ngram == 0 {
        1
    } else {
        min_ngram as int
    }
}

/// The longest suffix that is looked for: never less than the shortest that was asked for.
pub open spec fn last_length(min_ngram: usize, max_ngram: usize) -> int {
    if max_ngram < min_ngram {
        min_ngram as int
    } else {
        max_ngram as int
    }
}

/// How many tokens a repeat of this length may propose: two or three behind a repeat of two or
/// three, the whole draft length behind any other.
pub open spec fn most_proposed(n: int, draft_length: int) -> int {
    if n == 2 && draft_length > 2 {
        2
    } else if n == 3 && draft_length > 3 {
        3
    } else {
        draft_length
    }
}

/// The tokens that stand behind the repeat at `i`, as many as may be proposed.
pub open spec fn tokens_behind(history: Seq<u32>, n: int, most: int, i: int) -> Seq<u32> {
    if i + n + most <= history.len() {
        history.subrange(i + n, i + n + most)
    } else {
        history.subrange(i + n, history.len() as int)
    }
}

/// The places at which the suffix is repeated and followed by `next`.
pub open spec fn places_with(history: Seq<u32>, n: int, most: int, next: Seq<u32>) -> Set<int> {
    Set::new(
        |i: int| repeats_at(history, n, i) && tokens_behind(history, n, most, i) == next,
    )
}

proof fn lemma_repeats(history: Seq<u32>, n: int, i: int)
    requires
        n >= 0,
    ensures
        repeats_at(history, n, i) == is_occurrence(history, n, i),
{
    let end = history.len() as int;
    if 0 <= i && i + n < end {
        let own = history.subrange(i, i + n);
        let last = history.subrange(end - n, end);
        if repeats_at(history, n, i) {
            assert forall|k: int| 0 <= k < n implies own[k] == last[k] by {
                assert(history[i + k] == history[end - n + k]);
            }
            assert(own =~= last);
        }
        if own == last {
            assert forall|k: int| 0 <= k < n implies #[trigger] history[i + k] == history[end - n
                + k] by {
                assert(own[k] == last[k]);
            }
        }
    }
}

proof fn lemma_suffix_repeats(history: Seq<u32>, n: int)
    requires
        n >= 0,
    ensures
        suffix_repeats(history, n) == recurs(history, n),
{
    if suffix_repeats(history, n) {
        let i = choose|i: int| #[trigger] repeats_at(history, n, i);
        lemma_repeats(history, n, i);
        assert(is_occurrence(history, n, i));
    }
    if recurs(history, n) {
        let i = choose|i: int| #[trigger] is_occurrence(history, n, i);
        lemma_repeats(history, n, i);
        assert(repeats_at(history, n, i));
    }
}

proof fn lemma_behind(history: Seq<u32>, n: int, draft_length: int, i: int)
    requires
        n >= 0,
        draft_length >= 0,
        repeats_at(history, n, i),
    ensures
        continuation(history, n, depth_limit(n, draft_length), i) == tokens_behind(
            history,
            n,
            most_proposed(n, draft_length),
            i,
        ),
{
}

spec fn places_below(
    history: Seq<u32>,
    n: int,
    most: int,
    next: Seq<u32>,
    upto: int,
) -> Set<int> {
    Set::new(
        |i: int|
            i < upto && repeats_at(history, n, i) && tokens_behind(history, n, most, i) == next,
    )
}

proof fn lemma_frequency(history: Seq<u32>, n: int, draft_length: int, next: Seq<u32>, upto: int)
    requires
        n >= 0,
        draft_length >= 0,
    ensures
        places_below(history, n, most_proposed(n, draft_length), next, upto).finite(),
        places_below(history, n, most_proposed(n, draft_length), next, upto).len() == frequency(
            history,
            n,
            depth_limit(n, draft_length),
            next,
            upto,
        ),
    decreases upto,
{
    let most = most_proposed(n, draft_length);
    let all = places_below(history, n, most, next, upto);
    if upto > 0 {
        lemma_frequency(history, n, draft_length, next, upto - 1);
        lemma_repeats(history, n, upto - 1);
        let before = places_below(history, n, most, next, upto - 1);
        if repeats_at(history, n, upto - 1) {
            lemma_behind(history, n, draft_length, upto - 1);
        }
        if repeats_at(history, n, upto - 1) && tokens_behind(history, n, most, upto - 1) == next {
            assert(all =~= before.insert(upto - 1));
        } else {
            assert(all =~= before);
        }
    } else {
        assert(all =~= Set::<int>::empty());
    }
}

proof fn lemma_recurrence(history: Seq<u32>, n: int, draft_length: int, i: int)
    requires
        n >= 0,
        draft_length >= 0,
        repeats_at(history, n, i),
    ensures
        ({
            let most = most_proposed(n, draft_length);
            places_with(history, n, most, tokens_behind(history, n, most, i)).len() == recurrence(
                history,
                n,
                depth_limit(n, draft_length),
                i,
            )
        }),
{
    let most = most_proposed(n, draft_length);
    let next = tokens_behind(history, n, most, i);
    lemma_behind(history, n, draft_length, i);
    lemma_frequency(history, n, draft_length, next, history.len() - n);
    assert(places_with(history, n, most, next) =~= places_below(
        history,
        n,
        most,
        next,
        history.len() - n,
    ));
}

/// What is drafted. Nothing, if drafting is off or no admitted suffix is repeated. Otherwise the
/// longest repeated suffix decides: what stood behind one of its repeats is proposed, as many
/// tokens as its length allows, and of all that stood behind its repeats it is what stood there
/// most often; among equally frequent ones it is that of the latest repeat.
pub proof fn drafts_repeat_what_followed_most_often(
    min_ngram: usize,
    max_ngram: usize,
    draft_length: usize,
    drafter: NgramDrafter,
    history: &[u32],
    tokens: Vec<u32>,
)
    requires
        call_ensures(NgramDrafter::new, (min_ngram, max_ngram, draft_length), drafter),
        call_ensures(NgramDrafter::draft, (&drafter, history), tokens),
    ensures
        ({
            let shortest = first_length(min_ngram);
            let longest = last_length(min_ngram, max_ngram);
            &&& draft_length == 0 ==> tokens@.len() == 0
            &&& (forall|n: int|
                shortest <= n <= longest && n < history@.len() ==> !#[trigger] suffix_repeats(
                    history@,
                    n,
                )) ==> tokens@.len() == 0
            &&& forall|n: int|
                draft_length > 0 && #[trigger] is_longest_repeat(history@, shortest, longest, n)
                    ==> {
                    let most = most_proposed(n, draft_length as int);
                    exists|i: int|
                        {
                            &&& #[trigger] repeats_at(history@, n, i)
                            &&& tokens@ == tokens_behind(history@, n, most, i)
                            &&& forall|j: int| #[trigger]
                                repeats_at(history@, n, j) ==> {
                                    let often = places_with(history@, n, most, tokens@).len();
                                    let other = places_with(
                                        history@,
                                        n,
                                        most,
                                        tokens_behind(history@, n, most, j),
                                    ).len();
                                    other < often || (other == often && j <= i)
                                }
                        }
                }
        }),
{
    let h = history@;
    let length = drafter.length();
    let shortest = drafter.shortest();
    let longest = drafter.longest();
    if draft_length > 0 {
        if forall|n: int|
            shortest <= n <= longest && n < h.len() ==> !#[trigger] suffix_repeats(h, n) {
            assert forall|n: int| #[trigger] drafter.admits(h, n) implies !recurs(h, n) by {
                lemma_suffix_repeats(h, n);
                assert(!suffix_repeats(h, n));
            }
            assert(tokens@.len() == 0) by {
                assert(forall|n: int| !drafter.is_deepest(h, n));
            }
        }
        assert forall|n: int| #[trigger] is_longest_repeat(h, shortest, longest, n) implies {
            let most = most_proposed(n, length);
            exists|i: int|
                {
                    &&& #[trigger] repeats_at(h, n, i)
                    &&& tokens@ == tokens_behind(h, n, most, i)
                    &&& forall|j: int| #[trigger]
                        repeats_at(h, n, j) ==> {
                            let often = places_with(h, n, most, tokens@).len();
                            let other = places_with(
                                h,
                                n,
                                most,
                                tokens_behind(h, n, most, j),
                            ).len();
                            other < often || (other == often && j <= i)
                        }
                }
        } by {
            let most = most_proposed(n, length);
            lemma_suffix_repeats(h, n);
            assert(drafter.admits(h, n));
            assert(drafter.is_deepest(h, n)) by {
                assert forall|m: int| n < m && #[trigger] drafter.admits(h, m) implies !recurs(
                    h,
                    m,
                ) by {
                    lemma_suffix_repeats(h, m);
                    assert(!suffix_repeats(h, m));
                }
            }
            let (m, i) = choose|m: int, i: int|
                {
                    &&& #[trigger] drafter.is_deepest(h, m)
                    &&& #[trigger] is_best_occurrence(h, m, depth_limit(m, drafter.length()), i)
                    &&& tokens@ == continuation(h, m, depth_limit(m, drafter.length()), i)
                };
            assert(m == n);
            lemma_repeats(h, n, i);
            assert(is_occurrence(h, n, i));
            lemma_behind(h, n, length, i);
            lemma_recurrence(h, n, length, i);
            assert forall|j: int| #[trigger] repeats_at(h, n, j) implies {
                let often = places_with(h, n, most, tokens@).len();
                let other = places_with(h, n, most, tokens_behind(h, n, most, j)).len();
                other < often || (other == often && j <= i)
            } by {
                lemma_repeats(h, n, j);
                assert(is_occurrence(h, n, j));
                lemma_recurrence(h, n, length, j);
            }
            assert(repeats_at(h, n, i));
        }
    }
}

/// A draft is no longer than its evidence: behind a longest repeat of two tokens it has at most
/// two, behind one of three at most three, and never more than the draft length. It is shorter
/// than it may be only where the history ends.
pub proof fn drafts_are_no_longer_than_their_evidence(
    min_ngram: usize,
    max_ngram: usize,
    draft_length: usize,
    drafter: NgramDrafter,
    history: &[u32],
    tokens: Vec<u32>,
    n: int,
)
    requires
        call_ensures(NgramDrafter::new, (min_ngram, max_ngram, draft_length), drafter),
        call_ensures(NgramDrafter::draft, (&drafter, history), tokens),
        draft_length > 0,
        is_longest_repeat(
            history@,
            first_length(min_ngram),
            last_length(min_ngram, max_ngram),
            n,
        ),
    ensures
        n == 2 ==> tokens@.len() <= 2,
        n == 3 ==> tokens@.len() <= 3,
        0 < tokens@.len() <= draft_length,
        n != 2 && n != 3 && tokens@.len() < draft_length ==> history@.subrange(
            history@.len() - tokens@.len(),
            history@.len() as int,
        ) == tokens@,
{
    drafts_repeat_what_followed_most_often(
        min_ngram,
        max_ngram,
        draft_length,
        drafter,
        history,
        tokens,
    );
    let most = most_proposed(n, draft_length as int);
    let i = choose|i: int| #[trigger]
        repeats_at(history@, n, i) && tokens@ == tokens_behind(history@, n, most, i);
    assert(tokens@ == tokens_behind(history@, n, most, i));
    if tokens@.len() < most {
        assert(history@.subrange(history@.len() - tokens@.len(), history@.len() as int)
            =~= tokens@);
    }
}

} // verus!
