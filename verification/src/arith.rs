//! Arithmetic on game values. Health, damage and the like are `i32`; where
//! the exact result of a sum or difference leaves that range, it is brought
//! back to the nearest end of it.

use vstd::prelude::*;

verus! {

/// `v`, or the end of the `i32` range nearest to it.
pub open spec fn clamp_i32(v: int) -> i32 {
    if v < i32::MIN {
        i32::MIN
    } else if v > i32::MAX {
        i32::MAX
    } else {
        v as i32
    }
}

/// Half of `x`, rounded towards zero.
pub open spec fn half(x: int) -> int {
    if x >= 0 {
        x / 2
    } else {
        -((-x) / 2)
    }
}

/// The sum of the amounts.
pub open spec fn total(amounts: Seq<i32>) -> int
    decreases amounts.len(),
{
    if amounts.len() == 0 {
        0
    } else {
        total(amounts.drop_last()) + amounts.last()
    }
}

/// `v` as an `i32`, or the end of the range nearest to it.
pub fn saturate(v: i128) -> (r: i32)
    ensures
        r == clamp_i32(v as int),
{
    if v < -2147483648 {
        i32::MIN
    } else if v > 2147483647 {
        i32::MAX
    } else {
        v as i32
    }
}

/// The sum of the amounts, exactly.
pub fn sum(amounts: &Vec<i32>) -> (s: i128)
    ensures
        s == total(amounts@),
        -0x8000_0000_0000_0000_0000_0000 <= s <= 0x8000_0000_0000_0000_0000_0000,
{
    let mut acc: i128 = 0;
    let mut i: usize = 0;
    while i < amounts.len()
        invariant
            i <= amounts@.len(),
            acc == total(amounts@.take(i as int)),
            -(i as int) * 0x8000_0000 <= acc <= (i as int) * 0x8000_0000,
        decreases amounts@.len() - i,
    {
        proof {
            assert(amounts@.take(i as int + 1).drop_last() =~= amounts@.take(i as int));
        }
        acc = acc + amounts[i] as i128;
        i = i + 1;
    }
    proof {
        assert(amounts@.take(i as int) =~= amounts@);
    }
    acc
}

} // verus!
