//! What the comparisons of floating-point values mean, in bits.
use vstd::prelude::*;

use crate::bf16::Bf16;
use crate::float::{F32, F64};
use crate::num::{div_ceil, max_usize, min_usize};

verus! {

/// Of single-precision values, those with the largest exponent are infinite if their fraction
/// is zero and no numbers otherwise; all others are finite.
pub proof fn singles_are_told_apart(a: F32, finite: bool, nan: bool)
    requires
        call_ensures(F32::is_finite, (a,), finite),
        call_ensures(F32::is_nan, (a,), nan),
    ensures
        finite <==> (a.bits % 0x8000_0000) / 0x80_0000 != 0xff,
        nan <==> (a.bits % 0x8000_0000) / 0x80_0000 == 0xff && a.bits % 0x80_0000 != 0,
{
}

/// Of double-precision values, those with the largest exponent are infinite if their fraction
/// is zero and no numbers otherwise; all others are finite.
pub proof fn doubles_are_told_apart(a: F64, finite: bool, nan: bool)
    requires
        call_ensures(F64::is_finite, (a,), finite),
        call_ensures(F64::is_nan, (a,), nan),
    ensures
        finite <==> (a.bits % 0x8000_0000_0000_0000) / 0x10_0000_0000_0000 != 0x7ff,
        nan <==> (a.bits % 0x8000_0000_0000_0000) / 0x10_0000_0000_0000 == 0x7ff && a.bits
            % 0x10_0000_0000_0000 != 0,
{
}

/// What is no number is neither equal to anything nor at least as large. Zero has two forms
/// that are equal; other numbers are equal only to themselves. Values that are not negative
/// are ordered by their bits, negative ones against them, and negative ones come first.
pub proof fn singles_compare_as_numbers(a: F32, b: F32, at_least: bool, equal: bool)
    requires
        call_ensures(F32::at_least, (a, b), at_least),
        call_ensures(F32::equals, (a, b), equal),
    ensures
        a.bits % 0x8000_0000 > 0x7f80_0000 || b.bits % 0x8000_0000 > 0x7f80_0000 ==> !at_least
            && !equal,
        a.bits % 0x8000_0000 <= 0x7f80_0000 && b.bits % 0x8000_0000 <= 0x7f80_0000 ==> {
            let zeros = a.bits % 0x8000_0000 == 0 && b.bits % 0x8000_0000 == 0;
            &&& equal <==> a.bits == b.bits || zeros
            &&& a.bits < 0x8000_0000 && b.bits < 0x8000_0000 ==> (at_least <==> a.bits >= b.bits)
            &&& a.bits < 0x8000_0000 && b.bits >= 0x8000_0000 ==> at_least
            &&& a.bits >= 0x8000_0000 && b.bits < 0x8000_0000 ==> (at_least <==> zeros)
            &&& a.bits >= 0x8000_0000 && b.bits >= 0x8000_0000 ==> (at_least <==> a.bits
                <= b.bits)
        },
{
}

/// The same of double-precision values; above is at least without equal.
pub proof fn doubles_compare_as_numbers(a: F64, b: F64, at_least: bool, above: bool, equal: bool)
    requires
        call_ensures(F64::at_least, (a, b), at_least),
        call_ensures(F64::above, (a, b), above),
        call_ensures(F64::equals, (a, b), equal),
    ensures
        a.bits % 0x8000_0000_0000_0000 > 0x7ff0_0000_0000_0000 || b.bits % 0x8000_0000_0000_0000
            > 0x7ff0_0000_0000_0000 ==> !at_least && !above && !equal,
        above <==> at_least && !equal,
        a.bits % 0x8000_0000_0000_0000 <= 0x7ff0_0000_0000_0000 && b.bits % 0x8000_0000_0000_0000
            <= 0x7ff0_0000_0000_0000 ==> {
            let zeros = a.bits % 0x8000_0000_0000_0000 == 0 && b.bits % 0x8000_0000_0000_0000 == 0;
            &&& equal <==> a.bits == b.bits || zeros
            &&& a.bits < 0x8000_0000_0000_0000 && b.bits < 0x8000_0000_0000_0000 ==> (at_least
                <==> a.bits >= b.bits)
            &&& a.bits < 0x8000_0000_0000_0000 && b.bits >= 0x8000_0000_0000_0000 ==> at_least
            &&& a.bits >= 0x8000_0000_0000_0000 && b.bits < 0x8000_0000_0000_0000 ==> (at_least
                <==> zeros)
            &&& a.bits >= 0x8000_0000_0000_0000 && b.bits >= 0x8000_0000_0000_0000 ==> (at_least
                <==> a.bits <= b.bits)
        },
{
}

/// The key by which values are sorted tells all of them apart, keeps those without a sign
/// bit in the order of their bits, reverses those with one, and sets these first.
pub proof fn sort_keys_order_every_single(a: F32, b: F32, left: i64, right: i64)
    requires
        call_ensures(F32::total_order_key, (a,), left),
        call_ensures(F32::total_order_key, (b,), right),
    ensures
        a.bits < 0x8000_0000 && b.bits < 0x8000_0000 ==> (left < right <==> a.bits < b.bits),
        a.bits >= 0x8000_0000 && b.bits >= 0x8000_0000 ==> (left < right <==> a.bits > b.bits),
        a.bits >= 0x8000_0000 && b.bits < 0x8000_0000 ==> left < right,
        left == right <==> a == b,
{
}

/// The same of double-precision values.
pub proof fn sort_keys_order_every_double(a: F64, b: F64, left: i64, right: i64)
    requires
        call_ensures(F64::total_order_key, (a,), left),
        call_ensures(F64::total_order_key, (b,), right),
    ensures
        a.bits < 0x8000_0000_0000_0000 && b.bits < 0x8000_0000_0000_0000 ==> (left < right
            <==> a.bits < b.bits),
        a.bits >= 0x8000_0000_0000_0000 && b.bits >= 0x8000_0000_0000_0000 ==> (left < right
            <==> a.bits > b.bits),
        a.bits >= 0x8000_0000_0000_0000 && b.bits < 0x8000_0000_0000_0000 ==> left < right,
        left == right <==> a == b,
{
}

/// Narrowing takes the nearest of all values that sixteen bits hold, and of two that are
/// equally near the one with an even last bit. The sign is kept, and what is no number stays
/// none.
pub proof fn narrowing_takes_the_nearest(value: F32, r: Bf16, other: u16)
    requires
        call_ensures(F32::narrow, (value,), r),
    ensures
        value.bits % 0x8000_0000 <= 0x7f80_0000 ==> {
            let distance = value.bits - r.bits * 65536;
            &&& -32768 <= distance <= 32768
            &&& distance == 32768 || distance == -32768 ==> r.bits % 2 == 0
            &&& other * 65536 <= value.bits ==> value.bits - other * 65536 >= distance
            &&& other * 65536 >= value.bits ==> other * 65536 - value.bits >= distance
        },
        value.bits % 0x8000_0000 > 0x7f80_0000 ==> {
            &&& r.bits % 0x8000 > 0x7f80
            &&& r.bits == value.bits / 65536 || r.bits == value.bits / 65536 + 64
            &&& (r.bits / 64) % 2 == 1
        },
        r.bits >= 0x8000 <==> value.bits >= 0x8000_0000,
{
}

/// The smaller and the larger of two counts.
pub proof fn extremes_are_one_of_the_two(a: usize, b: usize, low: usize, high: usize)
    requires
        call_ensures(min_usize, (a, b), low),
        call_ensures(max_usize, (a, b), high),
    ensures
        low <= a <= high,
        low <= b <= high,
        low == a || low == b,
        low + high == a + b,
{
}

/// A rounded quotient is the least number of parts that cover the whole.
pub proof fn quotients_round_up(a: usize, b: usize, r: usize)
    requires
        b > 0,
        call_ensures(div_ceil, (a, b), r),
    ensures
        a <= r * b,
        r > 0 ==> (r - 1) * b < a,
        r == 0 <==> a == 0,
{
    crate::num::ceil_div_covers(a as int, b as int);
    assert((r - 1) * b == r * b - b) by (nonlinear_arith);
}

} // verus!
