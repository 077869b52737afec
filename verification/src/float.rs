//! Binary floating-point values held as integers.
//!
//! A model configuration gives some of its numbers as binary floating-point
//! values, and a few sizes are the integer part of a floating-point quotient.
//! Everything here works on the bit patterns of such values, or on the integers
//! that go into a quotient, and states what comes out in exact arithmetic.

use vstd::arithmetic::power2::*;
use vstd::prelude::*;

verus! {

/// `num / den` rounded to the nearest integer, a half to the even neighbour.
pub open spec fn nearest(num: nat, den: nat) -> nat {
    let quotient = num / den;
    let rest = num % den;
    if 2 * rest < den || (2 * rest == den && quotient % 2 == 0) {
        quotient
    } else {
        quotient + 1
    }
}

/// The number of binary digits of `n`.
pub open spec fn binary_digits(n: nat) -> nat
    decreases n,
{
    if n == 0 {
        0
    } else {
        1 + binary_digits(n / 2)
    }
}

/// The integer part of the double nearest to `num / den`.
///
/// A double has 53 significant binary digits. With `d` digits before the point
/// it has `53 - d` behind it; with more than 53 it is a multiple of a power of
/// two.
pub open spec fn double_quotient(num: nat, den: nat) -> nat {
    let digits = binary_digits(num / den);
    if digits <= 53 {
        let scale = pow2((53 - digits) as nat);
        nearest(num * scale, den) / scale
    } else {
        let scale = pow2((digits - 53) as nat);
        nearest(num, den * scale) * scale
    }
}

/// A value cut off at the greatest `u32`.
pub open spec fn saturated_u32(value: nat) -> u32 {
    if value > u32::MAX {
        u32::MAX
    } else {
        value as u32
    }
}

proof fn lemma_binary_digits(n: nat)
    ensures
        n < pow2(binary_digits(n)),
        n > 0 ==> binary_digits(n) >= 1 && pow2((binary_digits(n) - 1) as nat) <= n,
    decreases n,
{
    if n == 0 {
        lemma_pow2_pos(0);
    } else {
        lemma_binary_digits(n / 2);
        let d = binary_digits(n / 2);
        lemma_pow2_unfold(d + 1);
        if n / 2 == 0 {
            lemma2_to64();
        } else {
            lemma_pow2_unfold(d);
        }
    }
}

/// The number of digits is pinned down by the powers of two around the value.
proof fn lemma_digits_unique(n: nat, digits: nat)
    requires
        n < pow2(digits),
        digits >= 1 ==> pow2((digits - 1) as nat) <= n,
    ensures
        binary_digits(n) == digits,
{
    lemma_binary_digits(n);
    lemma_pow2_pos(0);
    let d = binary_digits(n);
    if d < digits {
        if d < digits - 1 {
            lemma_pow2_strictly_increases(d, (digits - 1) as nat);
        }
    } else if d > digits {
        if digits < d - 1 {
            lemma_pow2_strictly_increases(digits, (d - 1) as nat);
        }
        lemma2_to64();
    }
}

/// Two to the power of `n`.
fn power_of_two(n: u32) -> (power: u128)
    requires
        n < 128,
    ensures
        power == pow2(n as nat),
{
    proof {
        lemma2_to64();
    }
    let mut power: u128 = 1;
    let mut i: u32 = 0;
    while i < n
        invariant
            i <= n < 128,
            power == pow2(i as nat),
        decreases n - i,
    {
        proof {
            lemma_pow2_unfold((i + 1) as nat);
            lemma_power_fits((i + 1) as nat, 127);
        }
        power = power * 2;
        i = i + 1;
    }
    power
}

/// A power of two below the 128th fits in 128 bits.
proof fn lemma_power_fits(n: nat, bound: nat)
    requires
        n <= bound,
        bound <= 127,
    ensures
        pow2(n) <= pow2(bound),
        pow2(bound) <= 0x8000_0000_0000_0000_0000_0000_0000_0000,
{
    if n < bound {
        lemma_pow2_strictly_increases(n, bound);
    }
    if bound < 127 {
        lemma_pow2_strictly_increases(bound, 127);
    }
    lemma2_to64();
    lemma2_to64_rest();
    lemma_pow2_adds(63, 64);
    assert(0x8000_0000_0000_0000int * 0x1_0000_0000_0000_0000int
        == 0x8000_0000_0000_0000_0000_0000_0000_0000int) by (nonlinear_arith);
}

/// Rounds a quotient to the nearest integer, a half to the even neighbour.
fn nearest_quotient(num: u128, den: u128) -> (rounded: u128)
    requires
        0 < den <= 0x8000_0000_0000_0000_0000_0000_0000_0000,
        num < u128::MAX,
    ensures
        rounded == nearest(num as nat, den as nat),
{
    let quotient: u128 = num / den;
    let rest: u128 = num % den;
    if rest < den - rest || (rest == den - rest && quotient % 2 == 0) {
        quotient
    } else {
        assert(quotient <= num) by (nonlinear_arith)
            requires
                quotient == num / den,
                den > 0,
        ;
        quotient + 1
    }
}

/// A rounded quotient is the integer quotient or the next integer.
proof fn lemma_nearest_bounds(num: nat, den: nat)
    requires
        den > 0,
    ensures
        num / den <= nearest(num, den) <= num / den + 1,
        num % den == 0 ==> nearest(num, den) == num / den,
{
}

/// Scaling before the division gives at least the scaled quotient.
proof fn lemma_scaled_quotient(num: int, den: int, scale: int)
    requires
        num >= 0,
        den > 0,
        scale >= 0,
    ensures
        (num * scale) / den >= (num / den) * scale,
{
    let q = num / den;
    let r = num % den;
    vstd::arithmetic::div_mod::lemma_fundamental_div_mod(num, den);
    assert(num * scale == den * (q * scale) + r * scale) by (nonlinear_arith)
        requires
            num == den * q + r,
    ;
    assert(r * scale >= 0) by (nonlinear_arith)
        requires
            r >= 0,
            scale >= 0,
    ;
    assert(den * (q * scale) == (q * scale) * den) by (nonlinear_arith);
    vstd::arithmetic::div_mod::lemma_div_is_ordered((q * scale) * den, num * scale, den);
    vstd::arithmetic::div_mod::lemma_div_by_multiple(q * scale, den);
}

/// From a quotient of at least a power of two on, the double's integer part is
/// at least that power too.
proof fn lemma_double_quotient_large(num: nat, den: nat, bound: nat)
    requires
        den > 0,
        bound <= 52,
        num / den >= pow2(bound),
    ensures
        double_quotient(num, den) >= pow2(bound),
{
    let q = num / den;
    let digits = binary_digits(q);
    lemma_binary_digits(q);
    lemma_pow2_pos(bound);
    if digits <= 53 {
        let scale = pow2((53 - digits) as nat);
        lemma_pow2_pos((53 - digits) as nat);
        lemma_nearest_bounds(num * scale, den);
        lemma_scaled_quotient(num as int, den as int, scale as int);
        vstd::arithmetic::div_mod::lemma_div_is_ordered(
            (q * scale) as int,
            nearest(num * scale, den) as int,
            scale as int,
        );
        vstd::arithmetic::div_mod::lemma_div_by_multiple(q as int, scale as int);
    } else {
        let k = (digits - 53) as nat;
        let scale = pow2(k);
        lemma_pow2_pos(k);
        assert(den * scale > 0) by (nonlinear_arith)
            requires
                den > 0,
                scale > 0,
        ;
        lemma_nearest_bounds(num, den * scale);
        vstd::arithmetic::div_mod::lemma_div_denominator(num as int, den as int, scale as int);
        lemma_pow2_adds(52, k);
        assert(q >= pow2(52) * scale);
        vstd::arithmetic::div_mod::lemma_div_is_ordered(
            (pow2(52) * scale) as int,
            q as int,
            scale as int,
        );
        vstd::arithmetic::div_mod::lemma_div_by_multiple(pow2(52) as int, scale as int);
        if bound < 52 {
            lemma_pow2_strictly_increases(bound, 52);
        }
        assert(nearest(num, den * scale) >= pow2(52));
        assert(nearest(num, den * scale) * scale >= pow2(52)) by (nonlinear_arith)
            requires
                nearest(num, den * scale) >= pow2(52),
                scale >= 1,
        ;
    }
}

/// The integer part of the double nearest to `num / den`, cut off at the
/// greatest `u32`.
pub fn double_quotient_u32(num: u128, den: u64) -> (whole: u32)
    requires
        den > 0,
    ensures
        whole == saturated_u32(double_quotient(num as nat, den as nat)),
{
    let quotient: u128 = num / (den as u128);
    if quotient >= 0x1_0000_0000 {
        proof {
            lemma2_to64();
            lemma_double_quotient_large(num as nat, den as nat, 32);
        }
        return u32::MAX;
    }
    let mut digits: u32 = 0;
    let mut power: u128 = 1;
    proof {
        lemma2_to64();
    }
    while power <= quotient
        invariant
            digits <= 32,
            power == pow2(digits as nat),
            quotient < 0x1_0000_0000,
            digits >= 1 ==> pow2((digits - 1) as nat) <= quotient,
            pow2(32) == 0x1_0000_0000,
        decreases 33 - digits,
    {
        proof {
            lemma_pow2_unfold((digits + 1) as nat);
            if digits == 32 {
                assert(false);
            }
        }
        power = power * 2;
        digits = digits + 1;
    }
    let scale: u128 = power_of_two(53 - digits);
    proof {
        lemma_digits_unique(quotient as nat, digits as nat);
        lemma2_to64();
        lemma2_to64_rest();
        lemma_pow2_adds(digits as nat, (53 - digits) as nat);
        let d = den as int;
        let p = power as int;
        let s = scale as int;
        let n = num as int;
        assert(n < d * p) by (nonlinear_arith)
            requires
                quotient as int == n / d,
                quotient < p,
                d > 0,
        ;
        assert(n * s <= d * p * s) by (nonlinear_arith)
            requires
                n < d * p,
                s >= 0,
        ;
        assert(d * p * s == d * (p * s)) by (nonlinear_arith);
        assert(p * s == 0x20_0000_0000_0000);
        assert(n * s == num * scale);
        lemma_pow2_pos((53 - digits) as nat);
    }
    let rounded: u128 = nearest_quotient(num * scale, den as u128);
    let whole: u128 = rounded / scale;
    if whole > u32::MAX as u128 {
        u32::MAX
    } else {
        whole as u32
    }
}

/// The double nearest to an integer, which is an integer itself.
pub fn double_of_integer(n: u64) -> (rounded: u128)
    ensures
        rounded == double_quotient(n as nat, 1),
        rounded <= 0x1_0000_0000_0000_0000,
{
    proof {
        lemma2_to64();
        lemma2_to64_rest();
    }
    let mut digits: u32 = 0;
    let mut power: u128 = 1;
    while power <= n as u128
        invariant
            digits <= 64,
            power == pow2(digits as nat),
            digits >= 1 ==> pow2((digits - 1) as nat) <= n,
            pow2(64) == 0x1_0000_0000_0000_0000,
        decreases 65 - digits,
    {
        proof {
            lemma_pow2_unfold((digits + 1) as nat);
            if digits == 64 {
                assert(false);
            }
        }
        power = power * 2;
        digits = digits + 1;
    }
    proof {
        assert(n as nat / 1nat == n as nat);
        lemma_digits_unique(n as nat, digits as nat);
    }
    if digits <= 53 {
        proof {
            let scale = pow2((53 - digits) as nat);
            lemma_pow2_pos((53 - digits) as nat);
            lemma_nearest_bounds(n as nat * scale, 1);
            vstd::arithmetic::div_mod::lemma_div_by_multiple(n as int, scale as int);
        }
        return n as u128;
    }
    let scale: u128 = power_of_two(digits - 53);
    proof {
        assert(1 * scale == scale);
        lemma_power_fits((digits - 53) as nat, 11);
        lemma_pow2_pos((digits - 53) as nat);
    }
    let units: u128 = nearest_quotient(n as u128, scale);
    proof {
        lemma_nearest_bounds(n as nat, scale as nat);
        lemma_pow2_adds(53, (digits - 53) as nat);
        let p = power as int;
        let s = scale as int;
        assert(p == 0x20_0000_0000_0000 * s);
        vstd::arithmetic::div_mod::lemma_div_by_multiple(0x20_0000_0000_0000, s);
        assert(n as int / s < 0x20_0000_0000_0000) by (nonlinear_arith)
            requires
                (n as int) < 0x20_0000_0000_0000 * s,
                s > 0,
        ;
        assert(units <= 0x20_0000_0000_0000);
        assert(units * scale <= 0x20_0000_0000_0000 * s) by (nonlinear_arith)
            requires
                units <= 0x20_0000_0000_0000,
                s == scale,
                s > 0,
        ;
        if digits < 64 {
            lemma_pow2_strictly_increases(digits as nat, 64);
        }
    }
    units * scale
}

/// Whether the sign bit of a double's pattern is set.
pub open spec fn double_negative(bits: u64) -> bool {
    bits >= 0x8000_0000_0000_0000
}

/// The exponent field of a double's pattern.
pub open spec fn double_field(bits: u64) -> nat {
    (bits as nat / 0x10_0000_0000_0000) % 0x800
}

/// The fraction field of a double's pattern.
pub open spec fn double_fraction(bits: u64) -> nat {
    bits as nat % 0x10_0000_0000_0000
}

/// The integer `m` of a finite double `m * 2^e`, its sign left out.
pub open spec fn double_significand(bits: u64) -> nat {
    if double_field(bits) == 0 {
        double_fraction(bits)
    } else {
        0x10_0000_0000_0000 + double_fraction(bits)
    }
}

/// The exponent `e` of a finite double `m * 2^e`.
pub open spec fn double_exponent(bits: u64) -> int {
    if double_field(bits) == 0 {
        -1074
    } else {
        double_field(bits) - 1075
    }
}

/// An integer divided by a double in double arithmetic, then turned into a
/// `u32`: the integer part of the rounded quotient, cut off at both ends of the
/// range, and 0 where the quotient is not a number.
pub open spec fn whole_ratio(n: u32, bits: u64) -> u32 {
    let significand = double_significand(bits);
    let exponent = double_exponent(bits);
    if double_negative(bits) || double_field(bits) == 0x7ff {
        0
    } else if significand == 0 {
        if n == 0 {
            0
        } else {
            u32::MAX
        }
    } else if exponent >= 0 {
        saturated_u32(double_quotient(n as nat, significand * pow2(exponent as nat)))
    } else {
        saturated_u32(double_quotient(n as nat * pow2((-exponent) as nat), significand))
    }
}

/// Divides an integer by a double, given by its pattern, as [`whole_ratio`]
/// says.
pub fn divide_by_double(n: u32, bits: u64) -> (whole: u32)
    ensures
        whole == whole_ratio(n, bits),
{
    let field: u64 = (bits / 0x10_0000_0000_0000) % 0x800;
    let fraction: u64 = bits % 0x10_0000_0000_0000;
    if bits >= 0x8000_0000_0000_0000 || field == 0x7ff {
        return 0;
    }
    if field == 0 && fraction == 0 {
        return if n == 0 { 0 } else { u32::MAX };
    }
    let significand: u64 = if field == 0 { fraction } else { 0x10_0000_0000_0000 + fraction };
    if field >= 1075 {
        proof {
            let exponent = (field - 1075) as nat;
            let scale = pow2(exponent);
            lemma_pow2_pos(exponent);
            let den = significand as nat * scale;
            assert(den >= 0x10_0000_0000_0000) by (nonlinear_arith)
                requires
                    den == significand as nat * scale,
                    significand >= 0x10_0000_0000_0000,
                    scale >= 1,
            ;
            assert(n as nat / den == 0) by (nonlinear_arith)
                requires
                    n < den,
            ;
            lemma2_to64();
            lemma2_to64_rest();
            let num = n as nat * pow2(53);
            lemma_nearest_bounds(num, den);
            assert(num / den < 0x2_0000_0000) by (nonlinear_arith)
                requires
                    num < 0x2_0000_0000 * 0x10_0000_0000_0000,
                    den >= 0x10_0000_0000_0000,
            ;
            assert(binary_digits(0) == 0);
            assert(nearest(num, den) / pow2(53) == 0);
            assert(double_quotient(n as nat, den) == 0);
            assert(double_significand(bits) == significand);
            assert(double_exponent(bits) == exponent);
        }
        return 0;
    }
    let down: u64 = if field == 0 { 1074 } else { 1075 - field };
    if n == 0 {
        proof {
            assert(0 * pow2(down as nat) == 0);
            assert(0nat / significand as nat == 0);
            assert(binary_digits(0) == 0);
            lemma_pow2_pos(53);
            assert(0 * pow2(53) == 0);
            lemma_nearest_bounds(0, significand as nat);
            assert(0nat / pow2(53) == 0) by (nonlinear_arith)
                requires
                    pow2(53) > 0,
            ;
        }
        return 0;
    }
    if down >= 96 {
        proof {
            let scale = pow2(down as nat);
            lemma2_to64();
            lemma2_to64_rest();
            if down > 96 {
                lemma_pow2_strictly_increases(96, down as nat);
            }
            lemma_pow2_adds(32, 64);
            let num = n as nat * scale;
            assert(num >= scale) by (nonlinear_arith)
                requires
                    num == n as nat * scale,
                    n >= 1,
            ;
            assert(num / significand as nat >= 0x1_0000_0000) by (nonlinear_arith)
                requires
                    num >= 0x1_0000_0000 * 0x1_0000_0000_0000_0000,
                    0 < significand < 0x20_0000_0000_0000,
            ;
            lemma_double_quotient_large(num, significand as nat, 32);
        }
        return u32::MAX;
    }
    let scale: u128 = power_of_two(down as u32);
    proof {
        lemma_power_fits(down as nat, 95);
        lemma2_to64();
        lemma2_to64_rest();
        lemma_pow2_adds(31, 64);
        assert(n * scale <= 0xffff_ffff * pow2(95)) by (nonlinear_arith)
            requires
                n <= 0xffff_ffff,
                0 <= scale <= pow2(95),
        ;
        assert(n as nat * scale as nat == n * scale);
    }
    double_quotient_u32(n as u128 * scale, significand)
}

/// A finite or infinite double turned into the nearest single, a half to the
/// even neighbour; a pattern that is no number becomes the quiet one.
///
/// The singles of one sign are numbered by their patterns in order of value:
/// single `k` is `k * 2^-149` below `2^23`, and each power of two from there on
/// has `2^23` of them.
pub open spec fn narrowed(bits: u64) -> u32 {
    let sign: nat = if double_negative(bits) {
        0x8000_0000
    } else {
        0
    };
    if double_field(bits) == 0x7ff {
        if double_fraction(bits) == 0 {
            (sign + 0x7f80_0000) as u32
        } else {
            0x7fc0_0000
        }
    } else {
        let exponent = double_exponent(bits);
        let shift = if exponent + 29 >= -149 {
            29
        } else {
            -149 - exponent
        };
        let units = nearest(double_significand(bits), pow2(shift as nat));
        let index = (exponent + shift + 149) * 0x80_0000 + units;
        if index >= 0x7f80_0000 {
            (sign + 0x7f80_0000) as u32
        } else {
            (sign + index) as u32
        }
    }
}

/// Turns a double, given by its pattern, into the pattern of the nearest
/// single, as [`narrowed`] says.
pub fn narrow(bits: u64) -> (single: u32)
    ensures
        single == narrowed(bits),
{
    let field: u64 = (bits / 0x10_0000_0000_0000) % 0x800;
    let fraction: u64 = bits % 0x10_0000_0000_0000;
    let sign: u32 = if bits >= 0x8000_0000_0000_0000 { 0x8000_0000 } else { 0 };
    if field == 0x7ff {
        return if fraction == 0 { sign + 0x7f80_0000 } else { 0x7fc0_0000 };
    }
    let significand: u64 = if field == 0 { fraction } else { 0x10_0000_0000_0000 + fraction };
    // The last place of the result is `2^(field + 29 - 1075)`, but no less than
    // `2^-149`.
    if field >= 897 {
        proof {
            lemma2_to64();
            lemma_nearest_bounds(significand as nat, 0x2000_0000);
        }
        let units: u64 = nearest_quotient(significand as u128, 0x2000_0000) as u64;
        let index: u64 = (field - 897) * 0x80_0000 + units;
        return if index >= 0x7f80_0000 { sign + 0x7f80_0000 } else { sign + index as u32 };
    }
    let shift: u64 = if field == 0 { 925 } else { 926 - field };
    if shift >= 54 {
        proof {
            let scale = pow2(shift as nat);
            lemma2_to64();
            lemma2_to64_rest();
            if shift > 54 {
                lemma_pow2_strictly_increases(54, shift as nat);
            }
            assert(significand as nat / scale == 0) by (nonlinear_arith)
                requires
                    significand < scale,
            ;
            assert(significand as nat % scale == significand) by (nonlinear_arith)
                requires
                    significand < scale,
            ;
        }
        return sign;
    }
    let scale: u128 = power_of_two(shift as u32);
    proof {
        lemma_power_fits(shift as nat, 53);
        lemma2_to64();
        lemma2_to64_rest();
        lemma_power_fits(29, shift as nat);
        lemma_nearest_bounds(significand as nat, scale as nat);
        assert(significand as nat / scale as nat <= 0x100_0000) by (nonlinear_arith)
            requires
                significand < 0x20_0000_0000_0000,
                scale >= 0x2000_0000,
        ;
    }
    let units: u32 = nearest_quotient(significand as u128, scale) as u32;
    sign + units
}

/// A single turned into a `usize`: its integer part, cut off at both ends of
/// the range, and 0 for a pattern that is no number.
pub open spec fn whole_single(single: u32) -> usize {
    let field = (single as nat / 0x80_0000) % 0x100;
    let fraction = single as nat % 0x80_0000;
    let significand = 0x80_0000 + fraction;
    if single >= 0x8000_0000 || field == 0 || (field == 0xff && fraction != 0) {
        0
    } else if field == 0xff {
        usize::MAX
    } else {
        let whole = if field >= 150 {
            significand * pow2((field - 150) as nat)
        } else {
            significand / pow2((150 - field) as nat)
        };
        if whole > usize::MAX {
            usize::MAX
        } else {
            whole as usize
        }
    }
}

/// Turns a single, given by its pattern, into a `usize`, as [`whole_single`]
/// says.
pub fn single_to_usize(single: u32) -> (whole: usize)
    ensures
        whole == whole_single(single),
{
    let field: u32 = (single / 0x80_0000) % 0x100;
    let fraction: u32 = single % 0x80_0000;
    if single >= 0x8000_0000 || field == 0 || (field == 0xff && fraction != 0) {
        return 0;
    }
    if field == 0xff {
        return usize::MAX;
    }
    let significand: u128 = 0x80_0000 + fraction as u128;
    let whole: u128 = if field >= 150 {
        let scale: u128 = power_of_two(field - 150);
        proof {
            lemma_power_fits((field - 150) as nat, 104);
            lemma2_to64();
            lemma2_to64_rest();
            lemma_pow2_adds(40, 64);
            assert(significand * scale <= 0xff_ffff * pow2(104)) by (nonlinear_arith)
                requires
                    significand <= 0xff_ffff,
                    0 <= scale <= pow2(104),
            ;
        }
        significand * scale
    } else if field > 22 {
        let scale: u128 = power_of_two(150 - field);
        proof {
            lemma_pow2_pos((150 - field) as nat);
        }
        significand / scale
    } else {
        proof {
            let scale = pow2((150 - field) as nat);
            lemma2_to64();
            lemma_pow2_strictly_increases(24, (150 - field) as nat);
            assert(significand as nat / scale == 0) by (nonlinear_arith)
                requires
                    significand < scale,
            ;
        }
        0
    };
    if whole > usize::MAX as u128 {
        usize::MAX
    } else {
        whole as usize
    }
}

/// The pattern of the single whose value is a byte.
pub open spec fn single_of_byte(byte: u8) -> u32 {
    let digits = binary_digits(byte as nat);
    if byte == 0 {
        0
    } else {
        ((125 + digits) * 0x80_0000 + byte * pow2((24 - digits) as nat)) as u32
    }
}

/// Turns a byte into the pattern of the single of the same value.
pub fn byte_to_single(byte: u8) -> (single: u32)
    ensures
        single == single_of_byte(byte),
{
    if byte == 0 {
        return 0;
    }
    proof {
        lemma2_to64();
    }
    let mut digits: u32 = 0;
    let mut power: u32 = 1;
    let mut unit: u32 = 0x100_0000;
    while power <= byte as u32
        invariant
            digits <= 8,
            power == pow2(digits as nat),
            unit == pow2((24 - digits) as nat),
            digits >= 1 ==> pow2((digits - 1) as nat) <= byte,
            pow2(8) == 0x100,
        decreases 9 - digits,
    {
        proof {
            lemma_pow2_unfold((digits + 1) as nat);
            lemma_pow2_unfold((24 - digits) as nat);
            if digits == 8 {
                assert(false);
            }
        }
        power = power * 2;
        unit = unit / 2;
        digits = digits + 1;
    }
    proof {
        lemma_digits_unique(byte as nat, digits as nat);
        lemma_pow2_adds(digits as nat, (24 - digits) as nat);
        assert(byte * unit < power * unit) by (nonlinear_arith)
            requires
                byte < power,
                unit > 0,
        ;
        lemma_pow2_pos((24 - digits) as nat);
    }
    (125 + digits) * 0x80_0000 + byte as u32 * unit
}

/// The single of a byte has the byte's value: turned back into an integer it
/// gives the byte.
pub proof fn byte_survives_as_single(byte: u8)
    ensures
        whole_single(single_of_byte(byte)) == byte,
{
    if byte != 0 {
        let digits = binary_digits(byte as nat);
        lemma_binary_digits(byte as nat);
        lemma2_to64();
        if digits > 8 {
            if digits > 9 {
                lemma_pow2_strictly_increases(8, (digits - 1) as nat);
            }
        }
        let unit = pow2((24 - digits) as nat);
        lemma_pow2_pos((24 - digits) as nat);
        lemma_pow2_adds(digits, (24 - digits) as nat);
        lemma_pow2_adds((digits - 1) as nat, (24 - digits) as nat);
        let scaled = byte as nat * unit;
        assert(scaled < pow2(digits) * unit) by (nonlinear_arith)
            requires
                scaled == byte as nat * unit,
                byte < pow2(digits),
                unit > 0,
        ;
        assert(scaled >= pow2((digits - 1) as nat) * unit) by (nonlinear_arith)
            requires
                scaled == byte as nat * unit,
                byte >= pow2((digits - 1) as nat),
                unit > 0,
        ;
        let single = single_of_byte(byte);
        assert(single as nat == (125 + digits) * 0x80_0000 + scaled);
        let field = (single as nat / 0x80_0000) % 0x100;
        assert(field == 126 + digits);
        assert(0x80_0000 + single as nat % 0x80_0000 == scaled);
        vstd::arithmetic::div_mod::lemma_div_by_multiple(byte as int, unit as int);
        assert((150 - field) as nat == (24 - digits) as nat);
    }
}

/// Below `2^53` the double arithmetic of a quotient of integers is exact: its
/// integer part is that of the quotient.
pub proof fn double_quotient_is_exact(num: nat, den: nat)
    requires
        den > 0,
        num < 0x20_0000_0000_0000,
    ensures
        double_quotient(num, den) == num / den,
        double_quotient(num, 1) == num,
{
    lemma2_to64();
    lemma2_to64_rest();
    lemma_exact_quotient(num, den);
    lemma_exact_quotient(num, 1);
}

proof fn lemma_exact_quotient(num: nat, den: nat)
    requires
        den > 0,
        num < 0x20_0000_0000_0000,
        pow2(53) == 0x20_0000_0000_0000,
    ensures
        double_quotient(num, den) == num / den,
{
    let q = num / den;
    let digits = binary_digits(q);
    lemma_binary_digits(q);
    vstd::arithmetic::div_mod::lemma_fundamental_div_mod(num as int, den as int);
    assert(q <= num) by (nonlinear_arith)
        requires
            q == num / den,
            den > 0,
    ;
    if digits > 53 {
        if digits > 54 {
            lemma_pow2_strictly_increases(53, (digits - 1) as nat);
        }
        assert(false);
    }
    let scale = pow2((53 - digits) as nat);
    lemma_pow2_pos((53 - digits) as nat);
    lemma_pow2_adds(digits, (53 - digits) as nat);
    let n = (num * scale) as int;
    let d = den as int;
    let s = scale as int;
    lemma_scaled_quotient(num as int, d, s);
    lemma_nearest_bounds(num * scale, den);
    let r = num as int % d;
    let next = (q + 1) * s;
    assert(n == (q * s) * d + r * s) by (nonlinear_arith)
        requires
            n == num * s,
            num as int == d * q + r,
    ;
    // Between two integers the quotient keeps `1 / den` away from the upper one.
    assert(n + s <= next * d) by (nonlinear_arith)
        requires
            n == (q * s) * d + r * s,
            r + 1 <= d,
            s > 0,
            next == (q + 1) * s,
    ;
    if q > 0 {
        let half = pow2((digits - 1) as nat) as int;
        lemma_pow2_unfold(digits);
        lemma_pow2_pos((digits - 1) as nat);
        assert(half * s * 2 == 0x20_0000_0000_0000) by (nonlinear_arith)
            requires
                pow2(digits) as int == 2 * half,
                pow2(digits) * s == 0x20_0000_0000_0000,
        ;
        assert(half * d <= num) by (nonlinear_arith)
            requires
                half <= q,
                num as int == d * q + r,
                r >= 0,
                d > 0,
        ;
        assert(d < 2 * s) by (nonlinear_arith)
            requires
                half * d < half * s * 2,
                half > 0,
        ;
        assert(2 * n < (2 * next - 1) * d) by (nonlinear_arith)
            requires
                n + s <= next * d,
                d < 2 * s,
        ;
    } else {
        assert(binary_digits(0) == 0);
        assert(next == s) by (nonlinear_arith)
            requires
                next == (q + 1) * s,
                q == 0,
        ;
        assert(2 * n < (2 * next - 1) * d) by (nonlinear_arith)
            requires
                n + s <= next * d,
                n == num * s,
                num < s,
                next == s,
                s >= 1,
                d > 0,
        {
            if d >= 2 * s {
                assert(2 * (num * s) <= 2 * ((s - 1) * s)) by (nonlinear_arith)
                    requires
                        num < s,
                        s >= 1,
                ;
                assert(2 * ((s - 1) * s) < (2 * s - 1) * d) by (nonlinear_arith)
                    requires
                        d >= 2 * s,
                        s >= 1,
                ;
            }
        }
    }
    let k = n / d;
    let rest = n % d;
    vstd::arithmetic::div_mod::lemma_fundamental_div_mod(n, d);
    let rounded = nearest(num * scale, den) as int;
    assert(rounded < next) by (nonlinear_arith)
        requires
            2 * n < (2 * next - 1) * d,
            n == d * k + rest,
            0 <= rest < d,
            rounded == k || (rounded == k + 1 && 2 * rest >= d),
    ;
    assert(rounded / s == q) by (nonlinear_arith)
        requires
            q * s <= rounded < (q + 1) * s,
            s > 0,
    ;
}

/// Rounding goes to the nearest integer: what it adds or leaves out is at most half of the
/// divisor, and where it is just half, the result is even.
pub proof fn rounding_is_to_the_nearest(num: nat, den: nat)
    requires
        den > 0,
    ensures
        ({
            let twice = 2 * (nearest(num, den) * den - num);
            &&& -den <= twice <= den
            &&& twice == den || twice == -den ==> nearest(num, den) % 2 == 0
        }),
{
    let (q, r) = (num as int / den as int, num as int % den as int);
    vstd::arithmetic::div_mod::lemma_fundamental_div_mod(num as int, den as int);
    assert(q * den == den * q) by (nonlinear_arith);
    assert((q + 1) * den == den * q + den) by (nonlinear_arith);
    assert(nearest(num, den) == q || nearest(num, den) == q + 1);
}

/// The integer part of the double nearest to a quotient that is less than `2^digits`, but not
/// less than half of that. Up to 53 digits the double is a multiple of `2^(digits - 53)`,
/// namely `units` of them, and the result is what is before the point; beyond it is a
/// multiple of `2^(digits - 53)`, and so is the result.
pub proof fn doubles_are_nearest_to_quotients(num: nat, den: nat, digits: nat) -> (units: nat)
    requires
        den > 0,
        num / den < pow2(digits),
        digits >= 1 ==> pow2((digits - 1) as nat) <= num / den,
    ensures
        digits <= 53 ==> {
            let scale = pow2((53 - digits) as nat);
            let twice = 2 * (units * den - num * scale);
            &&& -den <= twice <= den
            &&& twice == den || twice == -den ==> units % 2 == 0
            &&& double_quotient(num, den) * scale <= units
            &&& units < double_quotient(num, den) * scale + scale
        },
        digits > 53 ==> {
            let scale = pow2((digits - 53) as nat);
            let twice = 2 * (units * (den * scale) - num);
            &&& -(den * scale) <= twice <= den * scale
            &&& twice == den * scale || twice == -(den * scale) ==> units % 2 == 0
            &&& double_quotient(num, den) == units * scale
        },
{
    lemma_digits_unique(num / den, digits);
    if digits <= 53 {
        let scale = pow2((53 - digits) as nat);
        lemma_pow2_pos((53 - digits) as nat);
        rounding_is_to_the_nearest(num * scale, den);
        let units = nearest(num * scale, den);
        vstd::arithmetic::div_mod::lemma_fundamental_div_mod(units as int, scale as int);
        assert((units / scale) * scale == scale * (units / scale)) by (nonlinear_arith);
        units
    } else {
        let scale = pow2((digits - 53) as nat);
        lemma_pow2_pos((digits - 53) as nat);
        assert(den * scale > 0) by (nonlinear_arith)
            requires
                den > 0,
                scale > 0,
        ;
        rounding_is_to_the_nearest(num, den * scale);
        nearest(num, den * scale)
    }
}

/// The fields of the pattern of a double.
proof fn lemma_double_fields(negative: bool, field: nat, fraction: nat, bits: u64)
    requires
        field < 0x800,
        fraction < 0x10_0000_0000_0000,
        bits == (if negative {
            0x8000_0000_0000_0000int
        } else {
            0
        }) + field * 0x10_0000_0000_0000 + fraction,
    ensures
        double_negative(bits) == negative,
        double_field(bits) == field,
        double_fraction(bits) == fraction,
{
    let high: int = if negative {
        0x800int + field
    } else {
        field as int
    };
    vstd::arithmetic::div_mod::lemma_fundamental_div_mod_converse(
        bits as int,
        0x10_0000_0000_0000,
        high,
        fraction as int,
    );
}

/// A finite double becomes the nearest single. With the sign left out, single number `k` is
/// `k` times the smallest from 0 to `2^23`, and each next `2^23` are twice as far apart as
/// those before them; what a double is off by is at most half of that, and where it is just
/// half, the number of the single is even. A double that is too large by half becomes
/// infinite.
pub proof fn singles_are_nearest_to_doubles(
    negative: bool,
    field: nat,
    fraction: nat,
    bits: u64,
)
    requires
        field < 0x7ff,
        fraction < 0x10_0000_0000_0000,
        bits == (if negative {
            0x8000_0000_0000_0000int
        } else {
            0
        }) + field * 0x10_0000_0000_0000 + fraction,
    ensures
        ({
            let number = narrowed(bits) - (if negative {
                0x8000_0000int
            } else {
                0
            });
            let significand = if field == 0 {
                fraction
            } else {
                0x10_0000_0000_0000 + fraction
            };
            let normal = 2 * ((number - (field - 897) * 0x80_0000) * 0x2000_0000 - significand);
            let least = pow2(
                (if field == 0 {
                    925
                } else {
                    926 - field
                }) as nat,
            );
            let small = 2 * (number * least - significand);
            &&& 0 <= number <= 0x7f80_0000
            &&& field >= 897 && number < 0x7f80_0000 ==> -0x2000_0000 <= normal <= 0x2000_0000
            &&& field >= 897 && number == 0x7f80_0000 ==> normal <= 0x2000_0000
            &&& field >= 897 && number < 0x7f80_0000 && (normal == 0x2000_0000 || normal
                == -0x2000_0000) ==> number % 2 == 0
            &&& field < 897 ==> -least <= small <= least
            &&& field < 897 && (small == least || small == -least) ==> number % 2 == 0
        }),
{
    lemma_double_fields(negative, field, fraction, bits);
    let significand = double_significand(bits);
    lemma2_to64();
    if field >= 897 {
        rounding_is_to_the_nearest(significand, 0x2000_0000);
        lemma_nearest_bounds(significand, 0x2000_0000);
        let units = nearest(significand, 0x2000_0000);
        assert((field - 897) * 0x80_0000 % 2 == 0);
        assert(units <= 0x100_0000);
    } else {
        let shift = (if field == 0 {
            925
        } else {
            926 - field
        }) as nat;
        lemma_pow2_pos(shift);
        if shift > 30 {
            lemma_pow2_strictly_increases(30, shift);
        }
        rounding_is_to_the_nearest(significand, pow2(shift));
        lemma_nearest_bounds(significand, pow2(shift));
        assert(significand / pow2(shift) <= 0x80_0000) by (nonlinear_arith)
            requires
                significand < 0x20_0000_0000_0000,
                pow2(shift) >= 0x4000_0000,
        ;
        assert(double_exponent(bits) + shift + 149 == 0);
    }
}

/// An infinite double becomes an infinite single of its sign; a pattern that is no number
/// becomes the quiet one.
pub proof fn infinite_doubles_stay_infinite(negative: bool, fraction: nat, bits: u64)
    requires
        fraction < 0x10_0000_0000_0000,
        bits == (if negative {
            0x8000_0000_0000_0000int
        } else {
            0
        }) + 0x7ff0_0000_0000_0000 + fraction,
    ensures
        fraction == 0 ==> narrowed(bits) == (if negative {
            0xff80_0000u32
        } else {
            0x7f80_0000
        }),
        fraction > 0 ==> narrowed(bits) == 0x7fc0_0000,
{
    lemma_double_fields(negative, 0x7ff, fraction, bits);
}

/// A single turned into an integer loses what is behind the point: the integer and the next
/// one are the two around it. One below 1, a negative one and a pattern that is no number
/// give 0, and one too large gives the greatest integer.
pub proof fn singles_lose_what_is_behind_the_point(field: nat, fraction: nat, single: u32)
    requires
        field <= 0xff,
        fraction < 0x80_0000,
        single == field * 0x80_0000 + fraction,
    ensures
        field < 127 ==> whole_single(single) == 0,
        127 <= field <= 150 ==> {
            let scale = pow2((150 - field) as nat);
            &&& whole_single(single) * scale <= 0x80_0000 + fraction
            &&& 0x80_0000 + fraction < whole_single(single) * scale + scale
        },
        150 < field < 0xff ==> {
            let value = (0x80_0000 + fraction) * pow2((field - 150) as nat);
            whole_single(single) == (if value <= usize::MAX {
                value
            } else {
                usize::MAX as nat
            })
        },
        field == 0xff ==> whole_single(single) == (if fraction == 0 {
            usize::MAX
        } else {
            0
        }),
        forall|other: u32| other >= 0x8000_0000 ==> #[trigger] whole_single(other) == 0,
{
    vstd::arithmetic::div_mod::lemma_fundamental_div_mod_converse(
        single as int,
        0x80_0000,
        field as int,
        fraction as int,
    );
    let significand = 0x80_0000 + fraction;
    lemma2_to64();
    if 0 < field < 127 {
        let scale = pow2((150 - field) as nat);
        if field < 126 {
            lemma_pow2_strictly_increases(24, (150 - field) as nat);
        }
        assert(significand / scale == 0) by (nonlinear_arith)
            requires
                significand < scale,
        ;
    } else if 127 <= field <= 150 {
        let scale = pow2((150 - field) as nat);
        lemma_pow2_pos((150 - field) as nat);
        vstd::arithmetic::div_mod::lemma_fundamental_div_mod(significand as int, scale as int);
        assert((significand / scale) * scale == scale * (significand / scale)) by (nonlinear_arith);
        assert(significand / scale <= significand) by (nonlinear_arith)
            requires
                scale >= 1,
        ;
        if field == 150 {
            assert(significand * scale == significand && significand / scale == significand)
                by (nonlinear_arith)
                requires
                    scale == 1,
            ;
        }
        assert(whole_single(single) == significand / scale);
    }
}

/// The single of a byte has the byte's value: with its exponent taken away, it is the byte,
/// moved up until it has 24 digits.
pub proof fn bytes_are_exact_as_singles(byte: u8)
    ensures
        byte == 0 ==> single_of_byte(byte) == 0,
        byte > 0 ==> {
            let field = single_of_byte(byte) / 0x80_0000;
            let fraction = single_of_byte(byte) % 0x80_0000;
            &&& 127 <= field <= 134
            &&& byte * pow2((150 - field) as nat) == 0x80_0000 + fraction
        },
{
    byte_survives_as_single(byte);
    if byte > 0 {
        let digits = binary_digits(byte as nat);
        lemma_binary_digits(byte as nat);
        lemma2_to64();
        if digits > 8 {
            if digits > 9 {
                lemma_pow2_strictly_increases(8, (digits - 1) as nat);
            }
        }
        let unit = pow2((24 - digits) as nat);
        lemma_pow2_pos((24 - digits) as nat);
        lemma_pow2_adds(digits, (24 - digits) as nat);
        lemma_pow2_adds((digits - 1) as nat, (24 - digits) as nat);
        let scaled = byte as nat * unit;
        assert(scaled < pow2(digits) * unit) by (nonlinear_arith)
            requires
                scaled == byte as nat * unit,
                byte < pow2(digits),
                unit > 0,
        ;
        assert(scaled >= pow2((digits - 1) as nat) * unit) by (nonlinear_arith)
            requires
                scaled == byte as nat * unit,
                byte >= pow2((digits - 1) as nat),
                unit > 0,
        ;
        assert(single_of_byte(byte) == (125 + digits) * 0x80_0000 + scaled);
    }
}

/// An integer divided by a positive double, given by the fields of its pattern: the integer
/// part of the nearest double, cut off at the greatest integer. A divisor of `2^52` or more
/// gives 0, and so do a negative one, an infinite one and a pattern that is no number; 0 gives
/// the greatest integer, but 0 by 0 gives 0.
pub proof fn integers_are_divided_by_doubles(n: u32, field: nat, fraction: nat, bits: u64)
    requires
        field < 0x800,
        fraction < 0x10_0000_0000_0000,
        bits == field * 0x10_0000_0000_0000 + fraction,
    ensures
        field == 0x7ff ==> whole_ratio(n, bits) == 0,
        1075 <= field < 0x7ff ==> whole_ratio(n, bits) == 0,
        field == 0 && fraction == 0 ==> whole_ratio(n, bits) == (if n == 0 {
            0
        } else {
            u32::MAX
        }),
        field < 1075 && (field > 0 || fraction > 0) ==> {
            let (num, den) = if field == 0 {
                (n as nat * pow2(1074), fraction)
            } else {
                (n as nat * pow2((1075 - field) as nat), 0x10_0000_0000_0000 + fraction)
            };
            let whole = double_quotient(num, den);
            whole_ratio(n, bits) == (if whole <= u32::MAX {
                whole as int
            } else {
                u32::MAX as int
            })
        },
        forall|other: u64| other >= 0x8000_0000_0000_0000 ==> #[trigger] whole_ratio(n, other) == 0,
{
    lemma_double_fields(false, field, fraction, bits);
    if 1075 <= field < 0x7ff {
        let significand = 0x10_0000_0000_0000 + fraction;
        let scale = pow2((field - 1075) as nat);
        lemma_pow2_pos((field - 1075) as nat);
        let den = significand * scale;
        assert(den >= 0x10_0000_0000_0000) by (nonlinear_arith)
            requires
                den == significand * scale,
                significand >= 0x10_0000_0000_0000,
                scale >= 1,
        ;
        double_quotient_is_exact(n as nat, den);
        assert(n as nat / den == 0) by (nonlinear_arith)
            requires
                n < den,
        ;
    }
}

}
