//! Prompt-lookup drafting for speculative decoding.
use vstd::prelude::*;

use crate::num::{max_usize, min_usize};

verus! {

/// Proposes continuations by looking for earlier occurrences of the latest n-gram
/// in the token history (prompt and generated tokens alike).
///
/// - It works on token ids alone, so it does not depend on the language.
/// - The length of a draft scales with the depth of the match: two tokens for a
///   2-gram, three for a 3-gram, the full draft length otherwise.
/// - Among several continuations the most frequent wins; the most recent one
///   breaks a tie.
#[derive(Debug, Clone)]
pub struct NgramDrafter {
    min_ngram: usize,
    max_ngram: usize,
    draft_length: usize,
}

/// The `n`-gram that starts at `i` equals the last `n` tokens, and starts before them.
pub open spec fn is_occurrence(history: Seq<u32>, n: int, i: int) -> bool {
    &&& 0 <= i < history.len() - n
    &&& history.subrange(i, i + n) == history.subrange(history.len() - n, history.len() as int)
}

/// The number of tokens a match of depth `n` may propose.
pub open spec fn depth_limit(n: int, draft_length: int) -> int {
    if n == 2 {
        crate::num::min_int(draft_length, 2)
    } else if n == 3 {
        crate::num::min_int(draft_length, 3)
    } else {
        draft_length
    }
}

/// What follows the `n`-gram at `i`, cut to `limit` tokens and to the history.
pub open spec fn continuation(history: Seq<u32>, n: int, limit: int, i: int) -> Seq<u32> {
    history.subrange(i + n, crate::num::min_int(i + n + limit, history.len() as int))
}

/// How many occurrences before `upto` are followed by `next`.
pub open spec fn frequency(history: Seq<u32>, n: int, limit: int, next: Seq<u32>, upto: int) -> int
    decreases upto,
{
    if upto <= 0 {
        0
    } else {
        frequency(history, n, limit, next, upto - 1) + if is_occurrence(history, n, upto - 1)
            && continuation(history, n, limit, upto - 1) == next {
            1int
        } else {
            0int
        }
    }
}

/// The number of times the continuation found at `i` recurs in the whole history.
pub open spec fn recurrence(history: Seq<u32>, n: int, limit: int, i: int) -> int {
    frequency(history, n, limit, continuation(history, n, limit, i), history.len() - n)
}

/// `i` is the occurrence to copy from: no occurrence recurs more often, and none that
/// recurs as often is more recent.
pub open spec fn is_best_occurrence(history: Seq<u32>, n: int, limit: int, i: int) -> bool {
    &&& is_occurrence(history, n, i)
    &&& forall|j: int| #[trigger]
        is_occurrence(history, n, j) ==> {
            ||| recurrence(history, n, limit, j) < recurrence(history, n, limit, i)
            ||| recurrence(history, n, limit, j) == recurrence(history, n, limit, i) && j <= i
        }
}

/// The latest `n`-gram has occurred before.
pub open spec fn recurs(history: Seq<u32>, n: int) -> bool {
    exists|i: int| #[trigger] is_occurrence(history, n, i)
}

impl NgramDrafter {
    pub closed spec fn shortest(self) -> int {
        self.min_ngram as int
    }

    pub closed spec fn longest(self) -> int {
        self.max_ngram as int
    }

    pub closed spec fn length(self) -> int {
        self.draft_length as int
    }

    /// The depth `n` may be tried on `history`.
    pub open spec fn admits(self, history: Seq<u32>, n: int) -> bool {
        self.shortest() <= n <= self.longest() && n < history.len()
    }

    /// `n` is the deepest admitted match.
    pub open spec fn is_deepest(self, history: Seq<u32>, n: int) -> bool {
        &&& self.admits(history, n)
        &&& recurs(history, n)
        &&& forall|m: int|
            n < m && #[trigger] self.admits(history, m) ==> !recurs(history, m)
    }

    /// `tokens` is the draft for `history`.
    pub open spec fn is_draft(self, history: Seq<u32>, tokens: Seq<u32>) -> bool {
        if self.length() == 0 {
            tokens == Seq::<u32>::empty()
        } else {
            ||| {
                &&& tokens == Seq::<u32>::empty()
                &&& forall|n: int| #[trigger] self.admits(history, n) ==> !recurs(history, n)
            }
            ||| exists|n: int, i: int|
                {
                    &&& #[trigger] self.is_deepest(history, n)
                    &&& #[trigger] is_best_occurrence(
                        history,
                        n,
                        depth_limit(n, self.length()),
                        i,
                    )
                    &&& tokens == continuation(history, n, depth_limit(n, self.length()), i)
                }
        }
    }

    pub fn new(min_ngram: usize, max_ngram: usize, draft_length: usize) -> (r: Self)
        ensures
            r.shortest() == crate::num::max_int(min_ngram as int, 1),
            r.longest() == crate::num::max_int(max_ngram as int, min_ngram as int),
            r.length() == draft_length,
    {
        NgramDrafter {
            min_ngram: max_usize(min_ngram, 1),
            max_ngram: max_usize(max_ngram, min_ngram),
            draft_length,
        }
    }

    /// Proposes up to the draft length of tokens to follow the complete `history`.
    pub fn draft(&self, history: &[u32]) -> (r: Vec<u32>)
        ensures
            self.is_draft(history@, r@),
    {
        if self.draft_length == 0 || history.len() <= self.min_ngram {
            return Vec::new();
        }
        let length: usize = history.len();
        let deepest: usize = min_usize(self.max_ngram, length - 1);
        if deepest < self.min_ngram {
            return Vec::new();
        }
        let mut n: usize = deepest;
        loop
            invariant
                self.draft_length > 0,
                self.min_ngram <= n <= deepest,
                length == history@.len(),
                deepest == crate::num::min_int(self.max_ngram as int, length - 1),
                forall|m: int|
                    n < m && #[trigger] self.admits(history@, m) ==> !recurs(history@, m),
            decreases n,
        {
            let limit: usize = match n {
                2 => min_usize(self.draft_length, 2),
                3 => min_usize(self.draft_length, 3),
                _ => self.draft_length,
            };
            match best_occurrence(history, n, limit) {
                Some(i) => {
                    assert(is_occurrence(history@, n as int, i as int));
                    let start: usize = i + n;
                    let taken: usize = min_usize(limit, history.len() - start);
                    let r = vstd::slice::slice_to_vec(
                        vstd::slice::slice_subrange(history, start, start + taken),
                    );
                    proof {
                        assert(recurs(history@, n as int));
                        assert(self.is_deepest(history@, n as int));
                        assert(is_best_occurrence(
                            history@,
                            n as int,
                            depth_limit(n as int, self.length()),
                            i as int,
                        ));
                        assert(r@ == continuation(history@, n as int, limit as int, i as int));
                    }
                    return r;
                },
                None => {
                    if n == self.min_ngram {
                        return Vec::new();
                    }
                    n = n - 1;
                },
            }
        }
    }
}

impl Default for NgramDrafter {
    fn default() -> (r: Self)
        ensures
            r.shortest() == 3,
            r.longest() == 5,
            r.length() == 3,
    {
        NgramDrafter { min_ngram: 3, max_ngram: 5, draft_length: 3 }
    }
}

/// Whether the windows of length `n` at `a` and `b` hold the same tokens.
fn same_window(tokens: &[u32], a: usize, b: usize, n: usize) -> (r: bool)
    requires
        a + n <= tokens@.len(),
        b + n <= tokens@.len(),
    ensures
        r == (tokens@.subrange(a as int, a + n) == tokens@.subrange(b as int, b + n)),
{
    let length: usize = tokens.len();
    let mut k: usize = 0;
    while k < n
        invariant
            k <= n,
            length == tokens@.len(),
            a + n <= length,
            b + n <= length,
            tokens@.subrange(a as int, a + k) == tokens@.subrange(b as int, b + k),
        decreases n - k,
    {
        if tokens[a + k] != tokens[b + k] {
            proof {
                let left = tokens@.subrange(a as int, a + n);
                let right = tokens@.subrange(b as int, b + n);
                assert(left[k as int] != right[k as int]);
            }
            return false;
        }
        proof {
            assert(tokens@.subrange(a as int, a + k + 1) == tokens@.subrange(
                a as int,
                a + k,
            ).push(tokens@[a + k]));
            assert(tokens@.subrange(b as int, b + k + 1) == tokens@.subrange(
                b as int,
                b + k,
            ).push(tokens@[b + k]));
        }
        k = k + 1;
    }
    true
}

/// Whether the continuations at `a` and `b` are the same tokens.
fn same_continuation(history: &[u32], n: usize, limit: usize, a: usize, b: usize) -> (r: bool)
    requires
        a + n < history@.len(),
        b + n < history@.len(),
    ensures
        r == (continuation(history@, n as int, limit as int, a as int) == continuation(
            history@,
            n as int,
            limit as int,
            b as int,
        )),
{
    let left: usize = min_usize(limit, history.len() - (a + n));
    let right: usize = min_usize(limit, history.len() - (b + n));
    if left != right {
        proof {
            assert(continuation(history@, n as int, limit as int, a as int).len() == left);
            assert(continuation(history@, n as int, limit as int, b as int).len() == right);
        }
        return false;
    }
    same_window(history, a + n, b + n, left)
}

fn count_recurrence(history: &[u32], n: usize, limit: usize, i: usize) -> (r: usize)
    requires
        n < history@.len(),
        is_occurrence(history@, n as int, i as int),
    ensures
        r == recurrence(history@, n as int, limit as int, i as int),
{
    let end: usize = history.len() - n;
    let ghost next = continuation(history@, n as int, limit as int, i as int);
    let mut seen: usize = 0;
    let mut j: usize = 0;
    while j < end
        invariant
            j <= end,
            seen <= j,
            n < history@.len(),
            end == history@.len() - n,
            is_occurrence(history@, n as int, i as int),
            next == continuation(history@, n as int, limit as int, i as int),
            seen == frequency(history@, n as int, limit as int, next, j as int),
        decreases end - j,
    {
        if same_window(history, j, end, n) && same_continuation(history, n, limit, j, i) {
            seen = seen + 1;
        }
        j = j + 1;
    }
    seen
}

/// The occurrence to copy from, scanning from the most recent one backwards.
fn best_occurrence(history: &[u32], n: usize, limit: usize) -> (r: Option<usize>)
    requires
        n < history@.len(),
    ensures
        match r {
            Some(i) => is_best_occurrence(history@, n as int, limit as int, i as int),
            None => !recurs(history@, n as int),
        },
{
    let end: usize = history.len() - n;
    let mut best: Option<usize> = None;
    let mut best_count: usize = 0;
    let mut i: usize = end;
    while i > 0
        invariant
            i <= end,
            n < history@.len(),
            end == history@.len() - n,
            match best {
                Some(b) => {
                    &&& i <= b
                    &&& is_occurrence(history@, n as int, b as int)
                    &&& best_count == recurrence(history@, n as int, limit as int, b as int)
                    &&& forall|j: int|
                        i <= j && #[trigger] is_occurrence(history@, n as int, j) ==> {
                            ||| recurrence(history@, n as int, limit as int, j) < best_count
                            ||| recurrence(history@, n as int, limit as int, j) == best_count
                                && j <= b
                        }
                },
                None => forall|j: int|
                    i <= j ==> !#[trigger] is_occurrence(history@, n as int, j),
            },
        decreases i,
    {
        i = i - 1;
        if same_window(history, i, end, n) {
            let count: usize = count_recurrence(history, n, limit, i);
            let better: bool = match best {
                Some(_) => count > best_count,
                None => true,
            };
            if better {
                best = Some(i);
                best_count = count;
            }
        }
    }
    best
}

/// The sizes of a drafter are not negative.
pub proof fn sizes_are_natural(drafter: NgramDrafter)
    ensures
        drafter.shortest() >= 0,
        drafter.longest() >= 0,
        drafter.length() >= 0,
{
}

/// A draft never exceeds the draft length.
pub proof fn draft_is_bounded(drafter: NgramDrafter, history: Seq<u32>, tokens: Seq<u32>)
    requires
        drafter.is_draft(history, tokens),
    ensures
        tokens.len() <= drafter.length(),
{
}

/// Every draft is a stretch of the history that directly follows an earlier occurrence
/// of its last tokens.
pub proof fn draft_is_copied_from_history(
    drafter: NgramDrafter,
    history: Seq<u32>,
    tokens: Seq<u32>,
)
    requires
        drafter.is_draft(history, tokens),
        tokens.len() > 0,
    ensures
        exists|n: int, i: int|
            {
                &&& drafter.admits(history, n)
                &&& #[trigger] is_occurrence(history, n, i)
                &&& i + n + tokens.len() <= history.len()
                &&& tokens == history.subrange(i + n, i + n + tokens.len())
            },
{
    let (n, i) = choose|n: int, i: int|
        {
            &&& #[trigger] drafter.is_deepest(history, n)
            &&& #[trigger] is_best_occurrence(history, n, depth_limit(n, drafter.length()), i)
            &&& tokens == continuation(history, n, depth_limit(n, drafter.length()), i)
        };
    assert(is_occurrence(history, n, i));
}

/// Whenever some admitted suffix recurs and drafting is on, something is proposed.
pub proof fn draft_is_found_when_a_suffix_recurs(
    drafter: NgramDrafter,
    history: Seq<u32>,
    tokens: Seq<u32>,
    n: int,
)
    requires
        drafter.is_draft(history, tokens),
        drafter.length() > 0,
        drafter.admits(history, n),
        recurs(history, n),
    ensures
        tokens.len() > 0,
{
}

/// The history and the drafter determine the draft.
pub proof fn draft_is_unique(
    drafter: NgramDrafter,
    history: Seq<u32>,
    left: Seq<u32>,
    right: Seq<u32>,
)
    requires
        drafter.is_draft(history, left),
        drafter.is_draft(history, right),
    ensures
        left == right,
{
    if drafter.length() != 0 && exists|n: int|
        drafter.admits(history, n) && #[trigger] recurs(history, n) {
        let (n, i) = choose|n: int, i: int|
            {
                &&& #[trigger] drafter.is_deepest(history, n)
                &&& #[trigger] is_best_occurrence(history, n, depth_limit(n, drafter.length()), i)
                &&& left == continuation(history, n, depth_limit(n, drafter.length()), i)
            };
        let (m, j) = choose|m: int, j: int|
            {
                &&& #[trigger] drafter.is_deepest(history, m)
                &&& #[trigger] is_best_occurrence(history, m, depth_limit(m, drafter.length()), j)
                &&& right == continuation(history, m, depth_limit(m, drafter.length()), j)
            };
        assert(n == m);
        assert(is_occurrence(history, n, i));
        assert(is_occurrence(history, n, j));
        assert(i == j);
    }
}

/// Different tokens of the history get different names.
pub open spec fn is_relabelling(relabel: spec_fn(u32) -> u32, history: Seq<u32>) -> bool {
    forall|i: int, j: int|
        0 <= i < history.len() && 0 <= j < history.len() && relabel(#[trigger] history[i])
            == relabel(#[trigger] history[j]) ==> history[i] == history[j]
}

/// All tokens are taken from the history.
spec fn is_from(tokens: Seq<u32>, history: Seq<u32>) -> bool {
    forall|i: int| 0 <= i < tokens.len() ==> history.contains(#[trigger] tokens[i])
}

proof fn lemma_subrange_is_from(history: Seq<u32>, start: int, end: int)
    requires
        0 <= start <= end <= history.len(),
    ensures
        is_from(history.subrange(start, end), history),
{
    assert forall|i: int| 0 <= i < end - start implies history.contains(
        #[trigger] history.subrange(start, end)[i],
    ) by {
        assert(history.subrange(start, end)[i] == history[start + i]);
    }
}

proof fn lemma_relabelled_equality(
    relabel: spec_fn(u32) -> u32,
    history: Seq<u32>,
    a: Seq<u32>,
    b: Seq<u32>,
)
    requires
        is_relabelling(relabel, history),
        is_from(a, history),
        is_from(b, history),
    ensures
        a.map_values(relabel) == b.map_values(relabel) <==> a == b,
{
    if a.map_values(relabel) == b.map_values(relabel) {
        assert(a.len() == a.map_values(relabel).len());
        assert(b.len() == b.map_values(relabel).len());
        assert forall|i: int| 0 <= i < a.len() implies a[i] == b[i] by {
            assert(a.map_values(relabel)[i] == relabel(a[i]));
            assert(b.map_values(relabel)[i] == relabel(b[i]));
            let x = choose|x: int| 0 <= x < history.len() && history[x] == a[i];
            let y = choose|y: int| 0 <= y < history.len() && history[y] == b[i];
            assert(history.contains(a[i]) && history.contains(b[i]));
            assert(relabel(history[x]) == relabel(history[y]));
        }
        assert(a =~= b);
    }
}

proof fn lemma_relabelled_occurrence(
    relabel: spec_fn(u32) -> u32,
    history: Seq<u32>,
    n: int,
    i: int,
)
    requires
        is_relabelling(relabel, history),
        n >= 0,
    ensures
        is_occurrence(history.map_values(relabel), n, i) == is_occurrence(history, n, i),
{
    if 0 <= i < history.len() - n {
        let end = history.len() as int;
        let own = history.subrange(i, i + n);
        let last = history.subrange(end - n, end);
        assert(history.map_values(relabel).subrange(i, i + n) =~= own.map_values(relabel));
        assert(history.map_values(relabel).subrange(end - n, end) =~= last.map_values(relabel));
        lemma_subrange_is_from(history, i, i + n);
        lemma_subrange_is_from(history, end - n, end);
        lemma_relabelled_equality(relabel, history, own, last);
    }
}

proof fn lemma_relabelled_continuation(
    relabel: spec_fn(u32) -> u32,
    history: Seq<u32>,
    n: int,
    limit: int,
    i: int,
)
    requires
        n >= 0,
        limit >= 0,
        0 <= i < history.len() - n,
    ensures
        continuation(history.map_values(relabel), n, limit, i) == continuation(
            history,
            n,
            limit,
            i,
        ).map_values(relabel),
{
    assert(continuation(history.map_values(relabel), n, limit, i) =~= continuation(
        history,
        n,
        limit,
        i,
    ).map_values(relabel));
}

proof fn lemma_continuation_is_from(history: Seq<u32>, n: int, limit: int, i: int)
    requires
        n >= 0,
        limit >= 0,
        0 <= i < history.len() - n,
    ensures
        is_from(continuation(history, n, limit, i), history),
{
    lemma_subrange_is_from(
        history,
        i + n,
        crate::num::min_int(i + n + limit, history.len() as int),
    );
}

proof fn lemma_relabelled_frequency(
    relabel: spec_fn(u32) -> u32,
    history: Seq<u32>,
    n: int,
    limit: int,
    next: Seq<u32>,
    upto: int,
)
    requires
        is_relabelling(relabel, history),
        is_from(next, history),
        n >= 0,
        limit >= 0,
    ensures
        frequency(history.map_values(relabel), n, limit, next.map_values(relabel), upto)
            == frequency(history, n, limit, next, upto),
    decreases upto,
{
    if upto > 0 {
        lemma_relabelled_frequency(relabel, history, n, limit, next, upto - 1);
        lemma_relabelled_occurrence(relabel, history, n, upto - 1);
        if is_occurrence(history, n, upto - 1) {
            lemma_relabelled_continuation(relabel, history, n, limit, upto - 1);
            lemma_continuation_is_from(history, n, limit, upto - 1);
            lemma_relabelled_equality(
                relabel,
                history,
                continuation(history, n, limit, upto - 1),
                next,
            );
        }
    }
}

proof fn lemma_relabelled_recurrence(
    relabel: spec_fn(u32) -> u32,
    history: Seq<u32>,
    n: int,
    limit: int,
    i: int,
)
    requires
        is_relabelling(relabel, history),
        n >= 0,
        limit >= 0,
        0 <= i < history.len() - n,
    ensures
        recurrence(history.map_values(relabel), n, limit, i) == recurrence(history, n, limit, i),
{
    lemma_relabelled_continuation(relabel, history, n, limit, i);
    lemma_continuation_is_from(history, n, limit, i);
    lemma_relabelled_frequency(
        relabel,
        history,
        n,
        limit,
        continuation(history, n, limit, i),
        history.len() - n,
    );
}

proof fn lemma_relabelled_recurs(relabel: spec_fn(u32) -> u32, history: Seq<u32>, n: int)
    requires
        is_relabelling(relabel, history),
        n >= 0,
    ensures
        recurs(history.map_values(relabel), n) == recurs(history, n),
{
    let named = history.map_values(relabel);
    if recurs(history, n) {
        let i = choose|i: int| #[trigger] is_occurrence(history, n, i);
        lemma_relabelled_occurrence(relabel, history, n, i);
        assert(is_occurrence(named, n, i));
    }
    if recurs(named, n) {
        let i = choose|i: int| #[trigger] is_occurrence(named, n, i);
        lemma_relabelled_occurrence(relabel, history, n, i);
        assert(is_occurrence(history, n, i));
    }
}

/// Drafting works on token ids alone: when the tokens of the history are renamed, one for
/// one, the draft is the same draft renamed.
pub proof fn draft_ignores_the_meaning_of_tokens(
    drafter: NgramDrafter,
    history: Seq<u32>,
    tokens: Seq<u32>,
    relabel: spec_fn(u32) -> u32,
)
    requires
        is_relabelling(relabel, history),
        drafter.is_draft(history, tokens),
    ensures
        drafter.is_draft(history.map_values(relabel), tokens.map_values(relabel)),
{
    let named = history.map_values(relabel);
    if drafter.length() == 0 {
        assert(tokens.map_values(relabel) =~= Seq::<u32>::empty());
    } else if tokens == Seq::<u32>::empty() && forall|n: int| #[trigger]
        drafter.admits(history, n) ==> !recurs(history, n) {
        assert(tokens.map_values(relabel) =~= Seq::<u32>::empty());
        assert forall|n: int| #[trigger] drafter.admits(named, n) implies !recurs(named, n) by {
            assert(drafter.admits(history, n));
            lemma_relabelled_recurs(relabel, history, n);
        }
    } else {
        let (n, i) = choose|n: int, i: int|
            {
                &&& #[trigger] drafter.is_deepest(history, n)
                &&& #[trigger] is_best_occurrence(history, n, depth_limit(n, drafter.length()), i)
                &&& tokens == continuation(history, n, depth_limit(n, drafter.length()), i)
            };
        let limit = depth_limit(n, drafter.length());
        assert(drafter.is_deepest(named, n)) by {
            lemma_relabelled_recurs(relabel, history, n);
            assert forall|m: int| n < m && #[trigger] drafter.admits(named, m) implies !recurs(
                named,
                m,
            ) by {
                assert(drafter.admits(history, m));
                lemma_relabelled_recurs(relabel, history, m);
            }
        }
        lemma_relabelled_occurrence(relabel, history, n, i);
        lemma_relabelled_recurrence(relabel, history, n, limit, i);
        assert(is_best_occurrence(named, n, limit, i)) by {
            assert forall|j: int| #[trigger] is_occurrence(named, n, j) implies {
                ||| recurrence(named, n, limit, j) < recurrence(named, n, limit, i)
                ||| recurrence(named, n, limit, j) == recurrence(named, n, limit, i) && j <= i
            } by {
                lemma_relabelled_occurrence(relabel, history, n, j);
                lemma_relabelled_recurrence(relabel, history, n, limit, j);
            }
        }
        lemma_relabelled_continuation(relabel, history, n, limit, i);
    }
}

} // verus!
