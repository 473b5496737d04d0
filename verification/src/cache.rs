//! Page geometry of the paged key-value cache.
use vstd::prelude::*;

verus! {

/// Tokens held by one key-value page.
#[derive(Clone, Copy, Debug, PartialEq, Eq, Structural)]
pub enum KvPageSize {
    P16,
    P32,
}

impl KvPageSize {
    pub open spec fn tokens(self) -> int {
        match self {
            KvPageSize::P16 => 16,
            KvPageSize::P32 => 32,
        }
    }

    pub fn value(self) -> (r: usize)
        ensures
            r == self.tokens(),
    {
        match self {
            KvPageSize::P16 => 16,
            KvPageSize::P32 => 32,
        }
    }
}

/// The largest page boundary that leaves at least one prompt token to compute.
///
/// A cached prefix may never cover a whole prompt: the last token has to run through
/// the model to produce the first logits.
pub open spec fn reusable_boundary(prompt_len: int, page_size: int) -> int {
    if page_size == 0 || prompt_len == 0 {
        0
    } else {
        (prompt_len - 1) / page_size * page_size
    }
}

pub fn reusable_limit(prompt_len: usize, page_size: usize) -> (r: usize)
    ensures
        r == reusable_boundary(prompt_len as int, page_size as int),
        prompt_len == 0 || r < prompt_len,
{
    if page_size == 0 || prompt_len == 0 {
        return 0;
    }
    proof {
        lemma_floor_multiple(prompt_len - 1, page_size as int);
    }
    (prompt_len - 1) / page_size * page_size
}

proof fn lemma_floor_multiple(a: int, b: int)
    by (nonlinear_arith)
    requires
        a >= 0,
        b > 0,
    ensures
        0 <= a / b * b <= a,
        a - a / b * b < b,
        (a / b * b) % b == 0,
{
}

/// The reusable boundary is a page boundary below the prompt's end, and no later page
/// boundary is.
pub proof fn reusable_boundary_is_last_page_below_prompt(prompt_len: int, page_size: int, other: int)
    requires
        prompt_len > 0,
        page_size > 0,
        0 <= other < prompt_len,
        other % page_size == 0,
    ensures
        reusable_boundary(prompt_len, page_size) % page_size == 0,
        0 <= reusable_boundary(prompt_len, page_size) < prompt_len,
        other <= reusable_boundary(prompt_len, page_size),
{
    lemma_floor_multiple(prompt_len - 1, page_size);
    lemma_multiples_below(prompt_len - 1, page_size, other);
}

proof fn lemma_multiples_below(a: int, b: int, other: int)
    by (nonlinear_arith)
    requires
        b > 0,
        0 <= other <= a,
        other % b == 0,
    ensures
        other <= a / b * b,
{
    assert(other == other / b * b);
    assert(other / b <= a / b);
}

} // verus!
