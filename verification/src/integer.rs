//! Integers cut to size.

use vstd::prelude::*;

verus! {

/// What is left of `n` in 32 bits.
pub open spec fn low_bits(n: int) -> u32 {
    (n % 0x1_0000_0000) as u32
}

/// Cuts `n` to its lower 32 bits.
pub fn low_bits_of(n: u64) -> (low: u32)
    ensures
        low == low_bits(n as int),
{
    let low: u32 = #[verifier::truncate]
    (n as u32);
    assert(n as u32 == n % 0x1_0000_0000) by (bit_vector);
    low
}

/// The larger of two numbers.
pub open spec fn larger(a: u32, b: u32) -> u32 {
    if a >= b {
        a
    } else {
        b
    }
}

/// The lower 32 bits of a number are the number itself where it has no more, and multiples of
/// `2^32` make no difference to them.
pub proof fn low_bits_leave_out_multiples(n: u32, k: int)
    ensures
        low_bits(n as int + k * 0x1_0000_0000) == n,
{
    vstd::arithmetic::div_mod::lemma_fundamental_div_mod_converse(
        n as int + k * 0x1_0000_0000,
        0x1_0000_0000,
        k,
        n as int,
    );
}

/// The larger of two numbers is one of them, and neither is above it.
pub proof fn larger_is_above_both(a: u32, b: u32)
    ensures
        larger(a, b) == a || larger(a, b) == b,
        larger(a, b) >= a,
        larger(a, b) >= b,
{
}

}
