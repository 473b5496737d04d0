//! Small integer helpers shared by the other modules.
use vstd::prelude::*;

verus! {

pub open spec fn min_int(a: int, b: int) -> int {
    if a <= b {
        a
    } else {
        b
    }
}

pub open spec fn max_int(a: int, b: int) -> int {
    if a >= b {
        a
    } else {
        b
    }
}

/// The least multiple count of `b` that covers `a`.
pub open spec fn ceil_div(a: int, b: int) -> int {
    if a % b == 0 {
        a / b
    } else {
        a / b + 1
    }
}

pub fn min_usize(a: usize, b: usize) -> (r: usize)
    ensures
        r == min_int(a as int, b as int),
{
    if a <= b {
        a
    } else {
        b
    }
}

pub fn max_usize(a: usize, b: usize) -> (r: usize)
    ensures
        r == max_int(a as int, b as int),
{
    if a >= b {
        a
    } else {
        b
    }
}

pub fn div_ceil(a: usize, b: usize) -> (r: usize)
    requires
        b > 0,
    ensures
        r == ceil_div(a as int, b as int),
{
    if a % b == 0 {
        a / b
    } else {
        proof {
            lemma_quotient_below(a as int, b as int);
        }
        a / b + 1
    }
}

proof fn lemma_quotient_below(a: int, b: int)
    by (nonlinear_arith)
    requires
        a >= 0,
        b > 0,
        a % b != 0,
    ensures
        a / b < a,
{
}

/// `ceil_div` covers its dividend and wastes less than one divisor.
pub proof fn ceil_div_covers(a: int, b: int)
    by (nonlinear_arith)
    requires
        a >= 0,
        b > 0,
    ensures
        a <= ceil_div(a, b) * b < a + b,
        ceil_div(a, b) >= 0,
        ceil_div(a, b) == 0 <==> a == 0,
{
}

} // verus!
