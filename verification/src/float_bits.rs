//! Single-precision numbers, held as their IEEE 754 bit patterns.
//!
//! Coordinates, advance widths and offsets travel through this library as
//! the 32 bits of a binary32 number: one sign bit, eight exponent bits and 23
//! fraction bits. What such a number is worth is stated here with integers
//! alone: `scaled_magnitude` is its magnitude times 2^149, which is whole
//! for every finite number.

use vstd::prelude::*;
use vstd::arithmetic::power2::{
    lemma2_to64, lemma_pow2_adds, lemma_pow2_pos, lemma_pow2_strictly_increases,
    lemma_pow2_unfold, pow2,
};
use vstd::arithmetic::div_mod::{
    lemma_basic_div, lemma_div_is_ordered, lemma_div_multiples_vanish,
    lemma_div_multiples_vanish_quotient, lemma_fundamental_div_mod_converse_div,
    lemma_multiply_divide_lt,
};
use vstd::arithmetic::mul::{
    lemma_mul_inequality, lemma_mul_is_associative, lemma_mul_is_commutative,
    lemma_mul_is_distributive_add, lemma_mul_strict_inequality,
};

verus! {

/// The sign bit is set.
pub open spec fn is_negative(bits: u32) -> bool {
    bits >= 0x8000_0000
}

/// The 31 bits below the sign.
pub open spec fn magnitude_bits(bits: u32) -> int {
    bits as int % 0x8000_0000
}

/// The exponent field, 0 to 255.
pub open spec fn exponent(bits: u32) -> int {
    magnitude_bits(bits) / 0x80_0000
}

/// The fraction field, 23 bits.
pub open spec fn fraction(bits: u32) -> int {
    magnitude_bits(bits) % 0x80_0000
}

/// The pattern is no number.
pub open spec fn is_nan(bits: u32) -> bool {
    exponent(bits) == 255 && fraction(bits) != 0
}

/// The pattern is an infinity.
pub open spec fn is_infinite(bits: u32) -> bool {
    exponent(bits) == 255 && fraction(bits) == 0
}

/// The pattern is a number that is no infinity.
pub open spec fn is_finite(bits: u32) -> bool {
    exponent(bits) < 255
}

/// The magnitude of a finite number, times 2^149. A subnormal number
/// (exponent field 0) is worth its fraction times 2^-149; any other is worth
/// (2^23 + fraction) times 2^(exponent - 150).
pub open spec fn scaled_magnitude(bits: u32) -> nat
    recommends
        is_finite(bits),
{
    if exponent(bits) == 0 {
        fraction(bits) as nat
    } else {
        ((0x80_0000 + fraction(bits)) * pow2((exponent(bits) - 1) as nat)) as nat
    }
}

/// The value of a finite number, times 2^149.
pub open spec fn scaled_value(bits: u32) -> int
    recommends
        is_finite(bits),
{
    if is_negative(bits) {
        -(scaled_magnitude(bits) as int)
    } else {
        scaled_magnitude(bits) as int
    }
}

/// The magnitude of a finite number, rounded to the nearest whole number,
/// halves up.
pub open spec fn rounded_magnitude(bits: u32) -> nat
    recommends
        is_finite(bits),
{
    (scaled_magnitude(bits) + pow2(148)) / pow2(149)
}

/// The number rounded to the nearest whole number, halves away from zero,
/// and brought into the range of 16 signed bits: what lies beyond the range
/// becomes its nearest end, and what is no number becomes 0.
pub open spec fn rounded_i16(bits: u32) -> int {
    if is_nan(bits) {
        0
    } else if is_negative(bits) {
        if is_infinite(bits) || rounded_magnitude(bits) >= 0x8000 {
            -0x8000
        } else {
            -(rounded_magnitude(bits) as int)
        }
    } else {
        if is_infinite(bits) || rounded_magnitude(bits) >= 0x7FFF {
            0x7FFF
        } else {
            rounded_magnitude(bits) as int
        }
    }
}

/// The number lies in the range of 8 signed bits, -128 to 127, ends
/// included. What is no number lies in no range.
pub open spec fn in_i8_range(bits: u32) -> bool {
    &&& is_finite(bits)
    &&& if is_negative(bits) {
        scaled_magnitude(bits) <= 128 * pow2(149)
    } else {
        scaled_magnitude(bits) <= 127 * pow2(149)
    }
}

/// The pattern stands for the whole number `v`, with +0 for 0.
pub open spec fn is_whole(bits: u32, v: int) -> bool {
    &&& is_finite(bits)
    &&& is_negative(bits) == (v < 0)
    &&& scaled_magnitude(bits) == (if v < 0 { -v } else { v }) * pow2(149)
}

/// The pattern of the whole number `v`.
pub open spec fn whole_bits(v: int) -> u32 {
    choose|bits: u32| is_whole(bits, v)
}

/// `a` is less than `b`, as numbers. What is no number is neither less nor
/// more than anything; the two zeros are equal.
pub open spec fn less_than(a: u32, b: u32) -> bool {
    &&& !is_nan(a)
    &&& !is_nan(b)
    &&& order_key(a) < order_key(b)
}

/// A whole number that orders the patterns as their values are ordered:
/// the magnitude bits, negated for a negative number.
pub open spec fn order_key(bits: u32) -> int {
    if is_negative(bits) {
        -magnitude_bits(bits)
    } else {
        magnitude_bits(bits)
    }
}

/// The pattern of the number with the opposite sign.
pub open spec fn negated(bits: u32) -> u32 {
    if bits >= 0x8000_0000 {
        (bits - 0x8000_0000) as u32
    } else {
        (bits + 0x8000_0000) as u32
    }
}

/// Flips the sign of a number. Every pattern has an opposite, also a zero, an
/// infinity and what is no number.
pub fn negate(bits: u32) -> (r: u32)
    ensures
        r == negated(bits),
        is_negative(r) != is_negative(bits),
        magnitude_bits(r) == magnitude_bits(bits),
{
    if bits >= 0x8000_0000 {
        bits - 0x8000_0000
    } else {
        bits + 0x8000_0000
    }
}

/// Flipping the sign twice gives the number back, bit for bit.
pub proof fn lemma_negate_twice(bits: u32)
    ensures
        negated(negated(bits)) == bits,
{
}

/// Flipping the sign keeps the magnitude and turns the value round.
pub proof fn lemma_negated_value(bits: u32)
    ensures
        is_nan(negated(bits)) == is_nan(bits),
        is_finite(negated(bits)) == is_finite(bits),
        scaled_magnitude(negated(bits)) == scaled_magnitude(bits),
        scaled_value(negated(bits)) == -scaled_value(bits),
{
}

/// Among the patterns that are numbers, a larger pattern below the sign bit
/// is a larger magnitude.
pub proof fn lemma_magnitude_order(a: u32, b: u32)
    requires
        is_finite(a),
        is_finite(b),
    ensures
        magnitude_bits(a) < magnitude_bits(b) <==> scaled_magnitude(a) < scaled_magnitude(b),
        magnitude_bits(a) == magnitude_bits(b) <==> scaled_magnitude(a) == scaled_magnitude(b),
{
    lemma_magnitude_strict(a, b);
    lemma_magnitude_strict(b, a);
}

/// Of two finite patterns, the one with the smaller magnitude bits has the
/// smaller magnitude.
proof fn lemma_magnitude_strict(a: u32, b: u32)
    requires
        is_finite(a),
        is_finite(b),
    ensures
        magnitude_bits(a) < magnitude_bits(b) ==> scaled_magnitude(a) < scaled_magnitude(b),
{
    let ea = exponent(a);
    let eb = exponent(b);
    let fa = fraction(a);
    let fb = fraction(b);
    if magnitude_bits(a) < magnitude_bits(b) {
        if ea == eb {
            if ea > 0 {
                lemma_pow2_pos((ea - 1) as nat);
                lemma_mul_strict_inequality(
                    0x80_0000 + fa,
                    0x80_0000 + fb,
                    pow2((ea - 1) as nat) as int,
                );
            }
        } else {
            assert(ea < eb);
            // a < 2^24 * 2^(ea - 1) = 2^23 * 2^ea <= 2^23 * 2^(eb - 1) <= b
            lemma_pow2_pos((eb - 1) as nat);
            lemma_mul_inequality(0x80_0000, 0x80_0000 + fb, pow2((eb - 1) as nat) as int);
            if ea == 0 {
                lemma_mul_inequality(1, pow2((eb - 1) as nat) as int, 0x80_0000);
                lemma_mul_is_commutative(0x80_0000, pow2((eb - 1) as nat) as int);
            } else {
                lemma_pow2_pos((ea - 1) as nat);
                lemma_pow2_unfold(ea as nat);
                lemma_mul_strict_inequality(
                    0x80_0000 + fa,
                    0x100_0000,
                    pow2((ea - 1) as nat) as int,
                );
                assert(0x100_0000 * pow2((ea - 1) as nat) == 0x80_0000 * pow2(ea as nat)) by {
                    lemma_mul_is_associative(0x80_0000, 2, pow2((ea - 1) as nat) as int);
                }
                if ea < eb - 1 {
                    lemma_pow2_strictly_increases(ea as nat, (eb - 1) as nat);
                }
                lemma_mul_inequality(
                    pow2(ea as nat) as int,
                    pow2((eb - 1) as nat) as int,
                    0x80_0000,
                );
                lemma_mul_is_commutative(0x80_0000, pow2(ea as nat) as int);
                lemma_mul_is_commutative(0x80_0000, pow2((eb - 1) as nat) as int);
            }
        }
    }
}

/// `less_than` is the order of the values: for two finite numbers it says
/// that the value of the first is the smaller one.
pub proof fn lemma_less_than_is_value_order(a: u32, b: u32)
    requires
        is_finite(a),
        is_finite(b),
    ensures
        less_than(a, b) <==> scaled_value(a) < scaled_value(b),
{
    lemma_magnitude_order(a, b);
    lemma_magnitude_order(b, a);
    // a zero of either sign is the one number whose magnitude is 0
    lemma_magnitude_order(a, 0);
    lemma_magnitude_order(b, 0);
}

/// Tells whether `a` is less than `b`.
pub fn is_less(a: u32, b: u32) -> (r: bool)
    ensures
        r == less_than(a, b),
{
    let ma: u32 = a % 0x8000_0000;
    let mb: u32 = b % 0x8000_0000;
    if ma > 0x7F80_0000 || mb > 0x7F80_0000 {
        return false;
    }
    let ka: i64 = if a >= 0x8000_0000 { -(ma as i64) } else { ma as i64 };
    let kb: i64 = if b >= 0x8000_0000 { -(mb as i64) } else { mb as i64 };
    ka < kb
}

/// 2 to the power `k`.
fn power_of_two(k: u32) -> (r: u32)
    requires
        k <= 31,
    ensures
        r == pow2(k as nat),
{
    let mut r: u32 = 1;
    let mut i: u32 = 0;
    proof {
        lemma2_to64();
    }
    while i < k
        invariant
            i <= k <= 31,
            r == pow2(i as nat),
            r <= 0x8000_0000,
        decreases k - i,
    {
        proof {
            lemma_pow2_unfold((i + 1) as nat);
            lemma2_to64();
            if i + 1 < 31 {
                lemma_pow2_strictly_increases((i + 1) as nat, 31);
            }
        }
        r = r * 2;
        i += 1;
    }
    r
}

/// A number below one half rounds to 0.
proof fn lemma_rounds_to_zero(bits: u32)
    requires
        exponent(bits) < 126,
    ensures
        rounded_magnitude(bits) == 0,
{
    let e = exponent(bits);
    let f = fraction(bits);
    lemma_pow2_unfold(149);
    lemma_pow2_pos(148);
    if e == 0 {
        lemma2_to64();
        lemma_pow2_strictly_increases(23, 148);
    } else {
        // (2^23 + f) * 2^(e - 1) < 2^24 * 2^(e - 1) = 2^(e + 23) <= 2^148
        lemma_pow2_pos((e - 1) as nat);
        lemma2_to64();
        lemma_mul_strict_inequality(0x80_0000 + f, 0x100_0000, pow2((e - 1) as nat) as int);
        lemma_pow2_adds(24, (e - 1) as nat);
        if e + 23 < 148 {
            lemma_pow2_strictly_increases((e + 23) as nat, 148);
        }
    }
    assert(scaled_magnitude(bits) < pow2(148));
    lemma_basic_div((scaled_magnitude(bits) + pow2(148)) as int, pow2(149) as int);
}

/// A number of 2^15 or more rounds to 2^15 or more.
proof fn lemma_rounds_beyond_range(bits: u32)
    requires
        142 <= exponent(bits) < 255,
    ensures
        rounded_magnitude(bits) >= 0x8000,
{
    let e = exponent(bits);
    let f = fraction(bits);
    // (2^23 + f) * 2^(e - 1) >= 2^23 * 2^141 = 2^15 * 2^149
    lemma2_to64();
    lemma_pow2_pos((e - 1) as nat);
    lemma_pow2_pos(149);
    lemma_pow2_pos(148);
    lemma_mul_inequality(0x80_0000, 0x80_0000 + f, pow2((e - 1) as nat) as int);
    if 141 < e - 1 {
        lemma_pow2_strictly_increases(141, (e - 1) as nat);
    }
    lemma_mul_inequality(pow2(141) as int, pow2((e - 1) as nat) as int, 0x80_0000);
    lemma_mul_is_commutative(0x80_0000, pow2(141) as int);
    lemma_mul_is_commutative(0x80_0000, pow2((e - 1) as nat) as int);
    lemma_pow2_adds(23, 141);
    lemma_pow2_adds(15, 149);
    assert(scaled_magnitude(bits) >= 0x8000 * pow2(149));
    lemma_div_is_ordered(
        0x8000 * (pow2(149) as int),
        (scaled_magnitude(bits) + pow2(148)) as int,
        pow2(149) as int,
    );
    lemma_div_multiples_vanish(0x8000, pow2(149) as int);
    lemma_mul_is_commutative(0x8000, pow2(149) as int);
}

/// Between one half and 2^15 the rounding needs the low `150 - exponent`
/// bits of the significand only.
proof fn lemma_rounds_by_shift(bits: u32)
    requires
        126 <= exponent(bits) <= 141,
    ensures
        rounded_magnitude(bits) == (0x80_0000 + fraction(bits) + pow2(
            (149 - exponent(bits)) as nat,
        )) / (pow2((150 - exponent(bits)) as nat) as int),
{
    let e = exponent(bits);
    let sig = 0x80_0000 + fraction(bits);
    let unit = pow2((e - 1) as nat) as int;
    let half = pow2((149 - e) as nat) as int;
    let whole = pow2((150 - e) as nat) as int;
    lemma_pow2_pos((e - 1) as nat);
    lemma_pow2_pos((150 - e) as nat);
    lemma_pow2_adds((e - 1) as nat, (149 - e) as nat);
    lemma_pow2_adds((e - 1) as nat, (150 - e) as nat);
    assert(pow2(148) == unit * half);
    assert(pow2(149) == unit * whole);
    lemma_mul_is_distributive_add(unit, sig, half);
    lemma_mul_is_commutative(unit, sig);
    assert(scaled_magnitude(bits) + pow2(148) == unit * (sig + half));
    lemma_div_multiples_vanish_quotient(unit, sig + half, whole);
}

/// Rounds a number to the nearest whole number, halves away from zero, and
/// brings it into the range of 16 signed bits.
pub fn round_to_i16(bits: u32) -> (r: i16)
    ensures
        r == rounded_i16(bits),
{
    let negative = bits >= 0x8000_0000;
    let mag: u32 = bits % 0x8000_0000;
    let e: u32 = mag / 0x80_0000;
    let f: u32 = mag % 0x80_0000;
    if e == 255 {
        if f != 0 {
            return 0;
        }
        return if negative { -0x8000 } else { 0x7FFF };
    }
    if e < 126 {
        proof {
            lemma_rounds_to_zero(bits);
        }
        return 0;
    }
    if e >= 142 {
        proof {
            lemma_rounds_beyond_range(bits);
        }
        return if negative { -0x8000 } else { 0x7FFF };
    }
    let whole: u32 = power_of_two(150 - e);
    let half: u32 = power_of_two(149 - e);
    proof {
        lemma_rounds_by_shift(bits);
        lemma2_to64();
        lemma_pow2_pos((150 - e) as nat);
        if 149 - e < 23 {
            lemma_pow2_strictly_increases((149 - e) as nat, 23);
        }
        if 9 < 150 - e {
            lemma_pow2_strictly_increases(9, (150 - e) as nat);
        }
    }
    let m: u32 = (0x80_0000 + f + half) / whole;
    assert(m <= 0x8000) by {
        // the significand is below 2^15 times the divisor, and the half below the divisor
        lemma_pow2_strictly_increases((149 - e) as nat, (150 - e) as nat);
        lemma_mul_inequality(0x200, whole as int, 0x8000);
        lemma_mul_is_commutative(0x8000, whole as int);
        lemma_mul_is_distributive_add(whole as int, 0x8000, 1);
        lemma_multiply_divide_lt((0x80_0000 + f + half) as int, whole as int, 0x8001);
    }
    if negative {
        if m >= 0x8000 {
            -0x8000
        } else {
            -(m as i16)
        }
    } else {
        if m >= 0x7FFF {
            0x7FFF
        } else {
            m as i16
        }
    }
}

/// The ends of the 8-bit range as patterns: at exponent 133 the number is
/// below 128, and at 134 it is 128 or more.
proof fn lemma_i8_range_by_bits(bits: u32)
    requires
        is_finite(bits),
    ensures
        scaled_magnitude(bits) <= 127 * pow2(149) <==> magnitude_bits(bits) <= 0x42FE_0000,
        scaled_magnitude(bits) <= 128 * pow2(149) <==> magnitude_bits(bits) <= 0x4300_0000,
{
    // 127.0 is the pattern 0x42FE0000 and 128.0 is 0x43000000
    let b127: u32 = 0x42FE_0000;
    let b128: u32 = 0x4300_0000;
    assert(exponent(b127) == 133 && fraction(b127) == 0x7E_0000);
    assert(exponent(b128) == 134 && fraction(b128) == 0);
    lemma2_to64();
    lemma_pow2_adds(17, 132);
    lemma_pow2_adds(23, 133);
    lemma_pow2_adds(7, 149);
    lemma_pow2_adds(17, 132);
    assert(scaled_magnitude(b127) == 127 * pow2(149)) by {
        assert(0xFE_0000 == 127 * 0x2_0000);
        lemma_mul_is_associative(127, 0x2_0000, pow2(132) as int);
    }
    assert(scaled_magnitude(b128) == 128 * pow2(149)) by {
        lemma_pow2_adds(23, 133);
        lemma_pow2_adds(7, 149);
    }
    lemma_magnitude_order(bits, b127);
    lemma_magnitude_order(b127, bits);
    lemma_magnitude_order(bits, b128);
    lemma_magnitude_order(b128, bits);
}

/// Tells whether a number lies between -128 and 127, ends included.
pub fn fits_i8(bits: u32) -> (r: bool)
    ensures
        r == in_i8_range(bits),
{
    let mag: u32 = bits % 0x8000_0000;
    if mag >= 0x7F80_0000 {
        return false;
    }
    proof {
        lemma_i8_range_by_bits(bits);
    }
    if bits >= 0x8000_0000 {
        mag <= 0x4300_0000
    } else {
        mag <= 0x42FE_0000
    }
}

/// A whole number has one pattern only.
pub proof fn lemma_whole_is_unique(a: u32, b: u32, v: int)
    requires
        is_whole(a, v),
        is_whole(b, v),
    ensures
        a == b,
{
    lemma_magnitude_order(a, b);
}

/// The pattern of a whole number of 16 signed bits. Every such number is a
/// binary32 number, so nothing is rounded.
pub fn from_i16(v: i16) -> (bits: u32)
    ensures
        is_whole(bits, v as int),
        bits == whole_bits(v as int),
{
    let bits = whole_pattern(v);
    proof {
        lemma_whole_is_unique(bits, whole_bits(v as int), v as int);
    }
    bits
}

/// Builds a pattern whose value is the whole number `v`.
fn whole_pattern(v: i16) -> (bits: u32)
    ensures
        is_whole(bits, v as int),
{
    if v == 0 {
        return 0;
    }
    let m: u32 = if v < 0 { (-(v as i32)) as u32 } else { v as u32 };
    // the place of the leading bit of m
    let mut lead: u32 = 0;
    let mut top: u32 = 1;
    proof {
        lemma2_to64();
    }
    while top * 2 <= m
        invariant
            1 <= m <= 0x8000,
            lead <= 15,
            top == pow2(lead as nat),
            top <= m,
        decreases m - top,
    {
        proof {
            lemma_pow2_unfold((lead + 1) as nat);
            lemma2_to64();
            if lead + 1 > 15 {
                lemma_pow2_strictly_increases(15, (lead + 1) as nat);
            }
        }
        top = top * 2;
        lead += 1;
    }
    let shift: u32 = power_of_two(23 - lead);
    proof {
        lemma2_to64();
        lemma_pow2_adds(lead as nat, (23 - lead) as nat);
        lemma_pow2_unfold((lead + 1) as nat);
        assert(m < 2 * top);
        lemma_mul_strict_inequality(m as int, 2 * top, shift as int);
        lemma_mul_inequality(top as int, m as int, shift as int);
        lemma_mul_is_associative(2, top as int, shift as int);
    }
    let sig: u32 = m * shift;
    assert(0x80_0000 <= sig < 0x100_0000);
    let e: u32 = 127 + lead;
    let mag: u32 = e * 0x80_0000 + (sig - 0x80_0000);
    let bits: u32 = if v < 0 { mag + 0x8000_0000 } else { mag };
    proof {
        assert(magnitude_bits(bits) == mag);
        assert(exponent(bits) == e);
        assert(fraction(bits) == sig - 0x80_0000);
        // sig * 2^(e - 1) = m * 2^(23 - lead) * 2^(126 + lead) = m * 2^149
        lemma_pow2_adds((23 - lead) as nat, (126 + lead) as nat);
        lemma_mul_is_associative(m as int, shift as int, pow2((126 + lead) as nat) as int);
    }
    bits
}

/// A whole number of 16 signed bits comes back from its pattern as it went
/// in, and lies in the 8-bit range exactly if it is between -128 and 127.
pub proof fn lemma_whole_round_trip(bits: u32, v: int)
    requires
        is_whole(bits, v),
        -0x8000 <= v < 0x8000,
    ensures
        rounded_i16(bits) == v,
        in_i8_range(bits) <==> -128 <= v <= 127,
{
    let m = if v < 0 { -v } else { v };
    lemma_pow2_pos(149);
    lemma_pow2_unfold(149);
    // (m * 2^149 + 2^148) / 2^149 == m
    lemma_fundamental_div_mod_converse_div(
        (scaled_magnitude(bits) + pow2(148)) as int,
        pow2(149) as int,
        m,
        pow2(148) as int,
    );
    lemma_mul_is_commutative(m, pow2(149) as int);
    assert(rounded_magnitude(bits) == m);
    if m <= 127 {
        lemma_mul_inequality(m, 127, pow2(149) as int);
    } else {
        lemma_mul_strict_inequality(127, m, pow2(149) as int);
    }
    if m <= 128 {
        lemma_mul_inequality(m, 128, pow2(149) as int);
    } else {
        lemma_mul_strict_inequality(128, m, pow2(149) as int);
    }
}

/// A number in the 8-bit range rounds to a whole number in that range.
pub proof fn lemma_i8_range_rounds_inside(bits: u32)
    requires
        in_i8_range(bits),
    ensures
        -128 <= rounded_i16(bits) <= 127,
{
    let unit = pow2(149) as int;
    lemma_pow2_pos(149);
    lemma_pow2_unfold(149);
    let limit: int = if is_negative(bits) { 128 } else { 127 };
    // (scaled + 2^148) / 2^149 <= (limit * 2^149 + 2^148) / 2^149 == limit
    lemma_div_is_ordered(
        (scaled_magnitude(bits) + pow2(148)) as int,
        limit * unit + pow2(148),
        unit,
    );
    lemma_fundamental_div_mod_converse_div(limit * unit + pow2(148), unit, limit, pow2(148) as int);
    lemma_mul_is_commutative(limit, unit);
}

} // verus!
