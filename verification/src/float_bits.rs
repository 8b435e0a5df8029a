//! IEEE 754 numbers by their bit patterns: which are not numbers, how the others are ordered,
//! and the whole part of a duration.
use vstd::arithmetic::div_mod::*;
use vstd::arithmetic::power2::*;
use vstd::bits::*;
use vstd::prelude::*;

verus! {

/// The bit pattern of 0.0 in 64 bits.
pub const F64_ZERO: u64 = 0;

/// The bit pattern of 3.0 in 64 bits.
pub const F64_THREE: u64 = 0x4008_0000_0000_0000;

/// The bit pattern of 1.0 in 32 bits.
pub const F32_ONE: u32 = 0x3f80_0000;

/// The bit pattern of 0.8 in 32 bits.
pub const F32_FOUR_FIFTHS: u32 = 0x3f4c_cccd;

/// The bits below the sign.
pub open spec fn f64_size(bits: u64) -> int {
    bits as int % 0x8000_0000_0000_0000
}

/// Whether the sign bit is set.
pub open spec fn f64_negative(bits: u64) -> bool {
    bits >= 0x8000_0000_0000_0000
}

/// Whether the pattern denotes no number.
pub open spec fn f64_nan(bits: u64) -> bool {
    f64_size(bits) > 0x7ff0_0000_0000_0000
}

/// Whether the pattern denotes an infinity.
pub open spec fn f64_infinite(bits: u64) -> bool {
    f64_size(bits) == 0x7ff0_0000_0000_0000
}

/// A number's place in the order of all numbers: both zeros are at zero.
pub open spec fn f64_rank(bits: u64) -> int {
    if f64_negative(bits) {
        -f64_size(bits)
    } else {
        f64_size(bits)
    }
}

/// The comparison `a < b`, which is false where either is not a number.
pub open spec fn f64_less(a: u64, b: u64) -> bool {
    !f64_nan(a) && !f64_nan(b) && f64_rank(a) < f64_rank(b)
}

/// Whether the pattern denotes no number.
pub fn f64_is_nan(bits: u64) -> (r: bool)
    ensures
        r == f64_nan(bits),
{
    bits % 0x8000_0000_0000_0000 > 0x7ff0_0000_0000_0000
}

/// The comparison `a < b`.
pub fn f64_is_less(a: u64, b: u64) -> (r: bool)
    ensures
        r == f64_less(a, b),
{
    if f64_is_nan(a) || f64_is_nan(b) {
        return false;
    }
    let size_a: u64 = a % 0x8000_0000_0000_0000;
    let size_b: u64 = b % 0x8000_0000_0000_0000;
    if a >= 0x8000_0000_0000_0000 {
        if b >= 0x8000_0000_0000_0000 {
            size_b < size_a
        } else {
            size_a > 0 || size_b > 0
        }
    } else if b >= 0x8000_0000_0000_0000 {
        false
    } else {
        size_a < size_b
    }
}

/// `value` brought into the range from zero to `top`: what is not a number becomes zero, and a
/// `top` that is not a number bounds nothing.
pub open spec fn f64_clamped(value: u64, top: u64) -> u64 {
    let low = if f64_nan(value) || f64_less(value, F64_ZERO) {
        F64_ZERO
    } else {
        value
    };
    if f64_less(top, low) {
        top
    } else {
        low
    }
}

/// Brings `value` into the range from zero to `top`.
pub fn f64_clamp(value: u64, top: u64) -> (r: u64)
    ensures
        r == f64_clamped(value, top),
{
    let low: u64 = if f64_is_nan(value) || f64_is_less(value, F64_ZERO) {
        F64_ZERO
    } else {
        value
    };
    if f64_is_less(top, low) {
        top
    } else {
        low
    }
}

/// What is brought into a range lies in it: it is a number, not below zero and not above the top,
/// where the top is itself a number not below zero.
pub proof fn law_clamped_lies_in_range(value: u64, top: u64)
    requires
        !f64_nan(top),
        !f64_less(top, F64_ZERO),
    ensures
        !f64_nan(f64_clamped(value, top)),
        !f64_less(f64_clamped(value, top), F64_ZERO),
        !f64_less(top, f64_clamped(value, top)),
{
}

/// What is inside a range is left alone: a number that is neither below zero nor above the top
/// stays as it is, bit for bit.
pub proof fn law_clamping_leaves_what_is_inside(value: u64, top: u64)
    requires
        !f64_nan(value),
        !f64_less(value, F64_ZERO),
        !f64_less(top, value),
    ensures
        f64_clamped(value, top) == value,
{
}

/// What is outside a range goes to the end that it is beyond: above the top to the top, and below
/// zero, or where it is no number, to zero.
pub proof fn law_clamping_goes_to_the_nearer_end(value: u64, top: u64)
    ensures
        f64_less(top, value) && !f64_less(value, F64_ZERO) ==> f64_clamped(value, top) == top,
        !f64_less(top, F64_ZERO) && (f64_nan(value) || f64_less(value, F64_ZERO)) ==> f64_clamped(
            value,
            top,
        ) == F64_ZERO,
        f64_less(top, F64_ZERO) ==> f64_clamped(value, top) == top,
{
}

/// The order of positions is kept: of two numbers, the one that is not below the other is not
/// below it after both were brought into the same range.
pub proof fn law_clamping_keeps_the_order(a: u64, b: u64, top: u64)
    requires
        !f64_nan(a),
        !f64_nan(b),
        !f64_less(b, a),
    ensures
        !f64_less(f64_clamped(b, top), f64_clamped(a, top)),
{
}

/// Numbers without a sign are ordered as their bit patterns are, numbers with one the other way
/// round and below all of the former; the two zeros are equal, and what is no number is neither
/// below nor above anything.
pub proof fn law_bit_patterns_are_ordered_as_numbers(a: u64, b: u64)
    ensures
        a < b <= 0x7ff0_0000_0000_0000 ==> f64_less(a, b) && !f64_less(b, a),
        0x8000_0000_0000_0000 <= a < b <= 0xfff0_0000_0000_0000 ==> f64_less(b, a) && !f64_less(
            a,
            b,
        ),
        0x8000_0000_0000_0000 < a <= 0xfff0_0000_0000_0000 && b <= 0x7ff0_0000_0000_0000
            ==> f64_less(a, b) && !f64_less(b, a),
        a == 0x8000_0000_0000_0000 ==> f64_less(a, b) == f64_less(0, b) && f64_less(b, a)
            == f64_less(b, 0),
        0x7ff0_0000_0000_0000 < a < 0x8000_0000_0000_0000 || 0xfff0_0000_0000_0000 < a
            ==> f64_nan(a) && !f64_less(a, b) && !f64_less(b, a),
        a <= 0x7ff0_0000_0000_0000 || 0x8000_0000_0000_0000 <= a <= 0xfff0_0000_0000_0000
            ==> !f64_nan(a),
        !f64_less(a, a),
{
}

/// The biased exponent of a number.
pub open spec fn f64_exponent(bits: u64) -> int {
    f64_size(bits) / 0x10_0000_0000_0000
}

/// The significand of a normal number, with its leading one.
pub open spec fn f64_significand(bits: u64) -> int {
    f64_size(bits) % 0x10_0000_0000_0000 + 0x10_0000_0000_0000
}

/// The largest whole number not above the magnitude of `bits`, at most what 64 bits hold. A
/// normal number is its significand times two to the power of its exponent less 1075.
pub open spec fn f64_whole(bits: u64) -> int {
    let exponent = f64_exponent(bits);
    if exponent < 1023 {
        0
    } else if exponent <= 1075 {
        f64_significand(bits) / (pow2((1075 - exponent) as nat) as int)
    } else {
        let value = f64_significand(bits) * (pow2((exponent - 1075) as nat) as int);
        if value > u64::MAX {
            u64::MAX as int
        } else {
            value
        }
    }
}

/// The largest whole number not above the magnitude of `bits`.
pub fn f64_floor(bits: u64) -> (r: u64)
    ensures
        r == f64_whole(bits),
{
    let size: u64 = bits % 0x8000_0000_0000_0000;
    let exponent: u64 = size / 0x10_0000_0000_0000;
    let significand: u64 = size % 0x10_0000_0000_0000 + 0x10_0000_0000_0000;
    if exponent < 1023 {
        0
    } else if exponent <= 1075 {
        let shift: u64 = 1075 - exponent;
        proof {
            lemma_u64_shr_is_div(significand, shift);
        }
        significand >> shift
    } else if exponent <= 1086 {
        let shift: u64 = exponent - 1075;
        proof {
            lemma2_to64();
            lemma_pow2_strictly_increases_or_equal(shift as nat);
            assert(significand * pow2(shift as nat) <= 0x1f_ffff_ffff_ffff * 0x800)
                by (nonlinear_arith)
                requires
                    0 <= significand <= 0x1f_ffff_ffff_ffff,
                    0 <= pow2(shift as nat) <= 0x800,
            ;
            lemma_u64_shl_is_mul(significand, shift);
        }
        significand << shift
    } else {
        proof {
            lemma2_to64();
            lemma_pow2_large((exponent - 1075) as nat);
            assert(significand * pow2((exponent - 1075) as nat) >= 0x10_0000_0000_0000 * 0x1000)
                by (nonlinear_arith)
                requires
                    significand >= 0x10_0000_0000_0000,
                    pow2((exponent - 1075) as nat) >= 0x1000,
            ;
        }
        0xffff_ffff_ffff_ffff
    }
}

proof fn lemma_pow2_strictly_increases_or_equal(n: nat)
    requires
        n <= 11,
    ensures
        pow2(n) <= 0x800,
{
    lemma2_to64();
    if n < 11 {
        lemma_pow2_strictly_increases(n, 11);
    }
}

proof fn lemma_pow2_large(n: nat)
    requires
        n >= 12,
    ensures
        pow2(n) >= 0x1000,
{
    lemma2_to64();
    if n > 12 {
        lemma_pow2_strictly_increases(12, n);
    }
}

/// The bits below the sign.
pub open spec fn f32_size(bits: u32) -> int {
    bits as int % 0x8000_0000
}

/// Whether the pattern denotes no number.
pub open spec fn f32_nan(bits: u32) -> bool {
    f32_size(bits) > 0x7f80_0000
}

/// A number's place in the order of all numbers: both zeros are at zero.
pub open spec fn f32_rank(bits: u32) -> int {
    if bits >= 0x8000_0000 {
        -f32_size(bits)
    } else {
        f32_size(bits)
    }
}

/// `bits` brought into the range from zero to one; what is not a number stays as it is.
pub open spec fn f32_unit_clamped(bits: u32) -> u32 {
    if f32_nan(bits) {
        bits
    } else if f32_rank(bits) < 0 {
        0
    } else if f32_rank(bits) > f32_rank(F32_ONE) {
        F32_ONE
    } else {
        bits
    }
}

/// Brings a number into the range from zero to one.
pub fn f32_unit_clamp(bits: u32) -> (r: u32)
    ensures
        r == f32_unit_clamped(bits),
{
    let size: u32 = bits % 0x8000_0000;
    if size > 0x7f80_0000 {
        bits
    } else if bits >= 0x8000_0000 {
        if size > 0 {
            0
        } else {
            bits
        }
    } else if bits > F32_ONE {
        F32_ONE
    } else {
        bits
    }
}

/// A loudness from nothing to full is left alone, bit for bit; one below goes to nothing, one
/// above to full, and what is no number stays as it is.
pub proof fn law_loudness_inside_is_left_alone(bits: u32)
    ensures
        bits <= F32_ONE ==> f32_unit_clamped(bits) == bits,
        F32_ONE < bits <= 0x7f80_0000 ==> f32_unit_clamped(bits) == F32_ONE,
        bits == 0x8000_0000 ==> f32_unit_clamped(bits) == bits,
        0x8000_0000 < bits <= 0xff80_0000 ==> f32_unit_clamped(bits) == 0,
        0x7f80_0000 < bits < 0x8000_0000 || bits > 0xff80_0000 ==> f32_unit_clamped(bits) == bits,
{
}

/// A length of `n` seconds and a fraction shows as `n`: for every `n` from two to the power of `e`
/// on and below the next power, with any fraction in the bits that are left, whatever the sign.
pub proof fn law_whole_part_of_a_length(e: nat, n: nat, fraction: nat, negative: bool, bits: u64)
    requires
        e <= 52,
        pow2(e) <= n < 2 * pow2(e),
        fraction < pow2((52 - e) as nat),
        bits as int == (1023 + e) * 0x10_0000_0000_0000 + (n - pow2(e)) * pow2((52 - e) as nat)
            + fraction + if negative {
            0x8000_0000_0000_0000int
        } else {
            0
        },
    ensures
        f64_whole(bits) == n,
{
    let unit = pow2((52 - e) as nat) as int;
    let low = (n - pow2(e)) * unit + fraction;
    lemma_pow2_pos((52 - e) as nat);
    lemma_pow2_pos(e);
    lemma_pow2_adds(e, (52 - e) as nat);
    lemma2_to64_rest();
    assert(pow2(e) * unit == 0x10_0000_0000_0000);
    assert(0 <= low < 0x10_0000_0000_0000 && low + 0x10_0000_0000_0000 == n * unit + fraction)
        by (nonlinear_arith)
        requires
            low == (n - pow2(e)) * unit + fraction,
            pow2(e) * unit == 0x10_0000_0000_0000,
            pow2(e) <= n < 2 * pow2(e),
            0 <= fraction < unit,
    ;
    assert(f64_size(bits) == (1023 + e) * 0x10_0000_0000_0000 + low);
    assert(f64_exponent(bits) == 1023 + e);
    assert(f64_significand(bits) == low + 0x10_0000_0000_0000);
    lemma_fundamental_div_mod_converse(n * unit + fraction, unit, n as int, fraction as int);
}

/// A length below one second shows as none.
pub proof fn law_less_than_a_second_is_none(bits: u64)
    requires
        bits < 0x3ff0_0000_0000_0000,
    ensures
        f64_whole(bits) == 0,
{
}

/// A length beyond the precision of its fraction is a whole number, and shows as it is as long as
/// 64 bits hold it; a longer one shows as the largest number that they hold.
pub proof fn law_whole_part_of_a_huge_length(e: nat, low: nat, bits: u64)
    requires
        53 <= e <= 1023,
        low < 0x10_0000_0000_0000,
        bits as int == (1023 + e) * 0x10_0000_0000_0000 + low,
    ensures
        e < 64 ==> f64_whole(bits) == (0x10_0000_0000_0000 + low) * pow2((e - 52) as nat),
        e >= 64 ==> f64_whole(bits) == u64::MAX,
{
    let value = 0x10_0000_0000_0000 + low;
    let unit = pow2((e - 52) as nat);
    lemma2_to64();
    assert(f64_exponent(bits) == 1023 + e);
    assert(f64_significand(bits) == value);
    if e < 64 {
        lemma_pow2_strictly_increases_or_equal((e - 52) as nat);
        assert(value * unit <= 0x1f_ffff_ffff_ffff * 0x800) by (nonlinear_arith)
            requires
                0 <= value <= 0x1f_ffff_ffff_ffff,
                0 <= unit <= 0x800,
        ;
    } else {
        lemma_pow2_large((e - 52) as nat);
        assert(value * unit >= 0x10_0000_0000_0000 * 0x1000) by (nonlinear_arith)
            requires
                value >= 0x10_0000_0000_0000,
                unit >= 0x1000,
        ;
    }
}

} // verus!
